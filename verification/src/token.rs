//! The session-token manager. Login issues a tagged pair: a
//! short-lived access token carrying the user identifier and a
//! snapshot of its group memberships as claims, and a longer-lived
//! refresh token whose record is persisted in the store. The claim tag
//! stands in for a cryptographic signature — what is verified is that
//! validation recomputes and checks it, along with expiry and, for
//! refresh, the persisted record; nothing is claimed about
//! unforgeability. Refresh rotates the record (single use); revocation
//! deletes it; the cleanup pass removes exactly the expired records.

use vstd::prelude::*;

use crate::auth::ServerKey;
use crate::auth::key_wf;
use crate::store::DirectoryStore;
use crate::store::StoreView;
use crate::store::store_wf;
use crate::store::has_user;
use crate::store::has_group_id;
use crate::store::user_group_names;
use crate::store::lemma_filter_step;
use crate::store::lemma_subrange_full;
use crate::store::lemma_filter_distinct_by_key;
use crate::types::DirectoryError;
use crate::types::RefreshRecord;
use crate::types::RefreshRecordView;

verus! {

/// How long an access token lives, in seconds.
pub const ACCESS_TOKEN_LIFETIME: u64 = 3600;

/// How long a refresh token lives, in seconds.
pub const REFRESH_TOKEN_LIFETIME: u64 = 2592000;

/// The tag accumulator's starting value.
pub const TAG_SEED: u64 = 0x517cc1b727220a95;

/// Word separating the claim fields inside the signed data.
pub const FIELD_SEPARATOR: u64 = 0xfffffffffffffffe;

/// Word separating the group names inside the signed data.
pub const GROUP_SEPARATOR: u64 = 0xfffffffffffffffd;

/// One step of the signature tag: multiply-and-add, wrapping.
pub open spec fn tag_step(acc: u64, x: u64) -> u64 {
    acc.wrapping_mul(31).wrapping_add(x)
}

/// The tag of the first `n` words of `data`.
pub open spec fn tag_upto(data: Seq<u64>, n: int) -> u64
    decreases n,
{
    if n <= 0 {
        TAG_SEED
    } else {
        tag_step(tag_upto(data, n - 1), data[n - 1])
    }
}

/// The signature tag of a whole word sequence.
pub open spec fn tag_of(data: Seq<u64>) -> u64 {
    tag_upto(data, data.len() as int)
}

/// A character sequence as signable words.
pub open spec fn chars_data(s: Seq<char>) -> Seq<u64> {
    s.map_values(|c: char| c as u64)
}

/// The group-name claims as signable words, one separator before each
/// name.
pub open spec fn groups_data(groups: Seq<Seq<char>>) -> Seq<u64>
    decreases groups.len(),
{
    if groups.len() == 0 {
        Seq::empty()
    } else {
        groups_data(groups.drop_last()) + seq![GROUP_SEPARATOR] + chars_data(groups.last())
    }
}

/// Everything an access token signs: the key material, the user
/// identifier, the expiry, and the group snapshot.
pub open spec fn claims_data(
    key: Seq<u64>,
    uid: Seq<char>,
    expiry: u64,
    groups: Seq<Seq<char>>,
) -> Seq<u64> {
    key + chars_data(uid) + seq![FIELD_SEPARATOR, expiry] + groups_data(groups)
}

/// The mathematical value of an access token.
#[verifier::ext_equal]
pub ghost struct AccessTokenView {
    pub user_id: Seq<char>,
    pub groups: Seq<Seq<char>>,
    pub expiry: u64,
    pub signature: u64,
}

/// A short-lived access token: claims plus a signature over them.
#[derive(Debug)]
pub struct AccessToken {
    pub user_id: String,
    pub groups: Vec<String>,
    pub expiry: u64,
    pub signature: u64,
}

impl View for AccessToken {
    type V = AccessTokenView;

    open spec fn view(&self) -> AccessTokenView {
        AccessTokenView {
            user_id: self.user_id@,
            groups: Seq::new(self.groups@.len(), |i: int| self.groups@[i]@),
            expiry: self.expiry,
            signature: self.signature,
        }
    }
}

/// The token's signature is the tag of its claims under this key.
pub open spec fn token_signed(key: Seq<u64>, t: AccessTokenView) -> bool {
    t.signature == tag_of(claims_data(key, t.user_id, t.expiry, t.groups))
}

/// A refresh token as handed to the client; the store keeps a matching
/// record until it is used, revoked or cleaned up.
#[derive(Debug)]
pub struct RefreshToken {
    pub token_hash: u64,
    pub user_id: String,
    pub expiry: u64,
}

/// Some refresh record carries this hash.
pub open spec fn has_record(s: StoreView, hash: u64) -> bool {
    exists|i: int|
        0 <= i < s.refresh_records.len() && (#[trigger] s.refresh_records[i]).token_hash == hash
}

/// Some live (non-expired, user-matching) refresh record carries this
/// hash at time `now`.
pub open spec fn live_record(s: StoreView, hash: u64, uid: Seq<char>, now: u64) -> bool {
    exists|i: int|
        0 <= i < s.refresh_records.len() && (#[trigger] s.refresh_records[i]).token_hash == hash
            && s.refresh_records[i].user_id == uid && now < s.refresh_records[i].expiry
}

/// Computes the signature tag of a word sequence.
#[verifier::loop_isolation(false)]
fn compute_tag(data: &Vec<u64>) -> (r: u64)
    ensures
        r == tag_of(data@),
{
    let mut acc: u64 = TAG_SEED;
    let mut i: usize = 0;
    while i < data.len()
        invariant
            i <= data.len(),
            acc == tag_upto(data@, i as int),
        decreases data.len() - i,
    {
        acc = acc.wrapping_mul(31).wrapping_add(data[i]);
        i = i + 1;
    }
    acc
}

/// Builds the signable word sequence for one set of claims.
#[verifier::loop_isolation(false)]
fn build_claims_data(key: &ServerKey, user_id: &String, expiry: u64, groups: &Vec<String>) -> (r:
    Vec<u64>)
    ensures
        r@ == claims_data(
            key@,
            user_id@,
            expiry,
            Seq::new(groups@.len(), |i: int| groups@[i]@),
        ),
{
    let ghost gviews = Seq::new(groups@.len(), |i: int| groups@[i]@);
    let mut data: Vec<u64> = Vec::new();
    let mut i: usize = 0;
    while i < key.secret.len()
        invariant
            i <= key.secret.len(),
            data@ =~= key@.subrange(0, i as int),
        decreases key.secret.len() - i,
    {
        data.push(key.secret[i]);
        i = i + 1;
    }
    proof {
        lemma_subrange_full(key@);
    }
    let uid = user_id.as_str();
    let n = uid.unicode_len();
    let mut j: usize = 0;
    while j < n
        invariant
            j <= n,
            n == uid@.len(),
            data@ =~= key@ + chars_data(uid@.subrange(0, j as int)),
        decreases n - j,
    {
        let c = uid.get_char(j);
        data.push(c as u64);
        proof {
            assert(chars_data(uid@.subrange(0, j + 1)) =~= chars_data(
                uid@.subrange(0, j as int),
            ).push(uid@[j as int] as u64));
        }
        j = j + 1;
    }
    proof {
        lemma_subrange_full(uid@);
        assert(uid@ == user_id@);
    }
    data.push(FIELD_SEPARATOR);
    data.push(expiry);
    proof {
        assert(data@ =~= key@ + chars_data(user_id@) + seq![FIELD_SEPARATOR, expiry]);
    }
    let ghost base = key@ + chars_data(user_id@) + seq![FIELD_SEPARATOR, expiry];
    let mut g: usize = 0;
    while g < groups.len()
        invariant
            g <= groups.len(),
            data@ =~= base + groups_data(gviews.subrange(0, g as int)),
        decreases groups.len() - g,
    {
        data.push(GROUP_SEPARATOR);
        let name = groups[g].as_str();
        let m = name.unicode_len();
        let mut k: usize = 0;
        while k < m
            invariant
                k <= m,
                m == name@.len(),
                data@ =~= base + groups_data(gviews.subrange(0, g as int)) + seq![GROUP_SEPARATOR]
                    + chars_data(name@.subrange(0, k as int)),
            decreases m - k,
        {
            let c = name.get_char(k);
            data.push(c as u64);
            proof {
                assert(chars_data(name@.subrange(0, k + 1)) =~= chars_data(
                    name@.subrange(0, k as int),
                ).push(name@[k as int] as u64));
            }
            k = k + 1;
        }
        proof {
            lemma_subrange_full(name@);
            assert(name@ == gviews[g as int]);
            assert(gviews.subrange(0, g + 1).drop_last() =~= gviews.subrange(0, g as int));
            assert(gviews.subrange(0, g + 1).last() == gviews[g as int]);
            assert(groups_data(gviews.subrange(0, g + 1)) =~= groups_data(
                gviews.subrange(0, g as int),
            ) + seq![GROUP_SEPARATOR] + chars_data(gviews[g as int]));
        }
        g = g + 1;
    }
    proof {
        lemma_subrange_full(gviews);
        assert(data@ =~= claims_data(key@, user_id@, expiry, gviews));
    }
    data
}

/// Index of the refresh record carrying `hash`, if any.
#[verifier::loop_isolation(false)]
fn find_record_index(store: &DirectoryStore, hash: u64) -> (r: Option<usize>)
    ensures
        match r {
            Option::Some(i) => i < store@.refresh_records.len() && store@.refresh_records[
                i as int
            ].token_hash == hash,
            Option::None => !has_record(store@, hash),
        },
{
    let mut i: usize = 0;
    while i < store.refresh_records.len()
        invariant
            i <= store.refresh_records.len(),
            forall|j: int|
                0 <= j < i ==> (#[trigger] store@.refresh_records[j]).token_hash != hash,
        decreases store.refresh_records.len() - i,
    {
        if store.refresh_records[i].token_hash == hash {
            return Option::Some(i);
        }
        i = i + 1;
    }
    Option::None
}

impl DirectoryStore {
    /// Issues a token pair for `user_id` at time `now`: an access token
    /// signed over the identifier, its expiry and the current group
    /// snapshot, and a refresh token whose record is persisted. The
    /// caller supplies the refresh token's random identifier; a
    /// colliding identifier fails `StorageError` and an unknown user
    /// `NotFound`, both changing nothing.
    pub fn issue_token_pair(
        &mut self,
        key: &ServerKey,
        user_id: &String,
        now: u64,
        refresh_entropy: u64,
    ) -> (r: Result<(AccessToken, RefreshToken), DirectoryError>)
        requires
            store_wf(old(self)@),
            key_wf(key@),
            now <= u64::MAX - REFRESH_TOKEN_LIFETIME,
        ensures
            store_wf(final(self)@),
            (r is Ok) == (has_user(old(self)@, user_id@) && !has_record(
                old(self)@,
                refresh_entropy,
            )),
            !has_user(old(self)@, user_id@) ==> r is Err && r->Err_0 == DirectoryError::NotFound
                && final(self)@ == old(self)@,
            has_user(old(self)@, user_id@) && has_record(old(self)@, refresh_entropy) ==> r is Err
                && r->Err_0 == DirectoryError::StorageError,
            r is Err ==> final(self)@ == old(self)@ && (r->Err_0 == DirectoryError::NotFound
                || r->Err_0 == DirectoryError::StorageError),
            r matches Ok(pair) ==> {
                &&& pair.0@.user_id == user_id@
                &&& pair.0@.expiry == now + ACCESS_TOKEN_LIFETIME
                &&& pair.0@.groups == user_group_names(old(self)@, user_id@)
                &&& token_signed(key@, pair.0@)
                &&& pair.1.token_hash == refresh_entropy
                &&& pair.1.user_id@ == user_id@
                &&& pair.1.expiry == now + REFRESH_TOKEN_LIFETIME
                &&& final(self)@ == (StoreView {
                    refresh_records: old(self)@.refresh_records.push(
                        RefreshRecordView {
                            token_hash: refresh_entropy,
                            user_id: user_id@,
                            expiry: (now + REFRESH_TOKEN_LIFETIME) as u64,
                        },
                    ),
                    ..old(self)@
                })
            },
    {
        if self.find_user_index(user_id).is_none() {
            return Result::Err(DirectoryError::NotFound);
        }
        if find_record_index(self, refresh_entropy).is_some() {
            return Result::Err(DirectoryError::StorageError);
        }
        let groups = self.groups_of_user(user_id);
        let expiry = now + ACCESS_TOKEN_LIFETIME;
        let data = build_claims_data(key, user_id, expiry, &groups);
        let signature = compute_tag(&data);
        let access = AccessToken { user_id: user_id.clone(), groups, expiry, signature };
        let refresh_expiry = now + REFRESH_TOKEN_LIFETIME;
        let refresh = RefreshToken {
            token_hash: refresh_entropy,
            user_id: user_id.clone(),
            expiry: refresh_expiry,
        };
        self.refresh_records.push(
            RefreshRecord {
                token_hash: refresh_entropy,
                user_id: user_id.clone(),
                expiry: refresh_expiry,
            },
        );
        proof {
            let pre = old(self)@;
            let post = self@;
            assert(post.refresh_records =~= pre.refresh_records.push(
                RefreshRecordView {
                    token_hash: refresh_entropy,
                    user_id: user_id@,
                    expiry: refresh_expiry,
                },
            ));
            assert(post =~= (StoreView {
                refresh_records: pre.refresh_records.push(
                    RefreshRecordView {
                        token_hash: refresh_entropy,
                        user_id: user_id@,
                        expiry: refresh_expiry,
                    },
                ),
                ..pre
            }));
            assert(access@.groups =~= user_group_names(pre, user_id@));
            assert forall|a: int, b: int| 0 <= a < b < post.refresh_records.len() implies (
            #[trigger] post.refresh_records[a]).token_hash != (
            #[trigger] post.refresh_records[b]).token_hash by {
                if b == post.refresh_records.len() - 1 {
                    assert(post.refresh_records[a] == pre.refresh_records[a]);
                    assert((#[trigger] pre.refresh_records[a]).token_hash != refresh_entropy);
                }
            }
            assert forall|i: int| 0 <= i < pre.users.len() implies has_user(
                post,
                (#[trigger] pre.users[i]).user_id,
            ) by {
                assert((#[trigger] post.users[i]).user_id == pre.users[i].user_id);
            }
            assert forall|i: int| 0 <= i < pre.groups.len() implies has_group_id(
                post,
                (#[trigger] pre.groups[i]).group_id,
            ) by {
                assert((#[trigger] post.groups[i]).group_id == pre.groups[i].group_id);
            }
            crate::store::lemma_endpoints_preserved(pre, post);
        }
        Result::Ok((access, refresh))
    }

    /// Validates an access token at time `now`: the signature must be
    /// the tag of the claims under this key, the expiry must not have
    /// passed, and the claimed user must still exist. Anything else is
    /// `TokenError`.
    pub fn validate_access_token(&self, key: &ServerKey, token: &AccessToken, now: u64) -> (r:
        Result<(), DirectoryError>)
        ensures
            (r is Ok) == (token_signed(key@, token@) && now < token@.expiry && has_user(
                self@,
                token@.user_id,
            )),
            r is Err ==> r->Err_0 == DirectoryError::TokenError,
    {
        let data = build_claims_data(key, &token.user_id, token.expiry, &token.groups);
        let expected = compute_tag(&data);
        if token.signature != expected {
            return Result::Err(DirectoryError::TokenError);
        }
        if now >= token.expiry {
            return Result::Err(DirectoryError::TokenError);
        }
        if self.find_user_index(&token.user_id).is_none() {
            return Result::Err(DirectoryError::TokenError);
        }
        Result::Ok(())
    }

    /// Exchanges a live refresh token for a new pair, invalidating the
    /// old record (single-use rotation). An unknown, expired or
    /// mismatched record fails `TokenError`; a colliding new identifier
    /// fails `StorageError`; a record whose user is gone fails
    /// `TokenError`. A failed exchange leaves the store unchanged.
    #[verifier::loop_isolation(false)]
    pub fn refresh_token_pair(
        &mut self,
        key: &ServerKey,
        refresh: &RefreshToken,
        now: u64,
        new_entropy: u64,
    ) -> (r: Result<(AccessToken, RefreshToken), DirectoryError>)
        requires
            store_wf(old(self)@),
            key_wf(key@),
            now <= u64::MAX - REFRESH_TOKEN_LIFETIME,
        ensures
            store_wf(final(self)@),
            r is Err ==> final(self)@ == old(self)@ && (r->Err_0 == DirectoryError::TokenError
                || r->Err_0 == DirectoryError::StorageError),
            (r is Ok) == (live_record(old(self)@, refresh.token_hash, refresh.user_id@, now)
                && has_user(old(self)@, refresh.user_id@) && (new_entropy == refresh.token_hash
                || !has_record(old(self)@, new_entropy))),
            !live_record(old(self)@, refresh.token_hash, refresh.user_id@, now) ==> r is Err
                && r->Err_0 == DirectoryError::TokenError,
            r matches Ok(pair) ==> {
                &&& live_record(old(self)@, refresh.token_hash, refresh.user_id@, now)
                &&& has_user(old(self)@, refresh.user_id@)
                &&& pair.0@.user_id == refresh.user_id@
                &&& pair.0@.expiry == now + ACCESS_TOKEN_LIFETIME
                &&& pair.0@.groups == user_group_names(old(self)@, refresh.user_id@)
                &&& token_signed(key@, pair.0@)
                &&& pair.1.token_hash == new_entropy
                &&& pair.1.user_id@ == refresh.user_id@
                &&& pair.1.expiry == now + REFRESH_TOKEN_LIFETIME
                &&& final(self)@ == (StoreView {
                    refresh_records: old(self)@.refresh_records.filter(
                        |rec: RefreshRecordView| rec.token_hash != refresh.token_hash,
                    ).push(
                        RefreshRecordView {
                            token_hash: new_entropy,
                            user_id: refresh.user_id@,
                            expiry: (now + REFRESH_TOKEN_LIFETIME) as u64,
                        },
                    ),
                    ..old(self)@
                })
            },
    {
        let idx = match find_record_index(self, refresh.token_hash) {
            Option::None => {
                return Result::Err(DirectoryError::TokenError);
            },
            Option::Some(idx) => idx,
        };
        if !self.refresh_records[idx].user_id.eq(&refresh.user_id) {
            proof {
                if live_record(self@, refresh.token_hash, refresh.user_id@, now) {
                    let wi = choose|wi: int|
                        0 <= wi < self@.refresh_records.len() && (#[trigger] self@.refresh_records[
                            wi
                        ]).token_hash == refresh.token_hash && self@.refresh_records[wi].user_id
                            == refresh.user_id@ && now < self@.refresh_records[wi].expiry;
                    if wi != idx as int {
                        assert((#[trigger] self@.refresh_records[wi]).token_hash != (
                        #[trigger] self@.refresh_records[idx as int]).token_hash);
                    }
                    assert(false);
                }
            }
            return Result::Err(DirectoryError::TokenError);
        }
        if now >= self.refresh_records[idx].expiry {
            proof {
                if live_record(self@, refresh.token_hash, refresh.user_id@, now) {
                    let wi = choose|wi: int|
                        0 <= wi < self@.refresh_records.len() && (#[trigger] self@.refresh_records[
                            wi
                        ]).token_hash == refresh.token_hash && self@.refresh_records[wi].user_id
                            == refresh.user_id@ && now < self@.refresh_records[wi].expiry;
                    if wi != idx as int {
                        assert((#[trigger] self@.refresh_records[wi]).token_hash != (
                        #[trigger] self@.refresh_records[idx as int]).token_hash);
                    }
                    assert(false);
                }
            }
            return Result::Err(DirectoryError::TokenError);
        }
        if self.find_user_index(&refresh.user_id).is_none() {
            return Result::Err(DirectoryError::TokenError);
        }
        if new_entropy != refresh.token_hash {
            if find_record_index(self, new_entropy).is_some() {
                return Result::Err(DirectoryError::StorageError);
            }
        }
        proof {
            assert((#[trigger] self@.refresh_records[idx as int]).token_hash
                == refresh.token_hash && self@.refresh_records[idx as int].user_id
                == refresh.user_id@ && now < self@.refresh_records[idx as int].expiry);
        }
        let ghost pre = self@;
        let ghost rpred = |rec: RefreshRecordView| rec.token_hash != refresh.token_hash;
        let groups = self.groups_of_user(&refresh.user_id);
        let expiry = now + ACCESS_TOKEN_LIFETIME;
        let data = build_claims_data(key, &refresh.user_id, expiry, &groups);
        let signature = compute_tag(&data);
        let access = AccessToken {
            user_id: refresh.user_id.clone(),
            groups,
            expiry,
            signature,
        };
        let mut kept: Vec<RefreshRecord> = Vec::new();
        let mut i: usize = 0;
        while i < self.refresh_records.len()
            invariant
                i <= self.refresh_records.len(),
                Seq::new(kept@.len(), |k: int| kept@[k]@) =~= pre.refresh_records.subrange(
                    0,
                    i as int,
                ).filter(rpred),
            decreases self.refresh_records.len() - i,
        {
            proof {
                lemma_filter_step(pre.refresh_records, rpred, i as int);
            }
            if self.refresh_records[i].token_hash != refresh.token_hash {
                kept.push(self.refresh_records[i].clone());
            }
            i = i + 1;
        }
        self.refresh_records = kept;
        proof {
            lemma_subrange_full(pre.refresh_records);
            assert(self@.refresh_records =~= pre.refresh_records.filter(rpred));
            lemma_filter_distinct_by_key(
                pre.refresh_records,
                rpred,
                |rec: RefreshRecordView| rec.token_hash,
            );
            assert forall|k: int| 0 <= k < self@.refresh_records.len() implies (
            #[trigger] self@.refresh_records[k]).token_hash != new_entropy by {
                assert(pre.refresh_records.contains(self@.refresh_records[k]));
                let l = choose|l: int|
                    0 <= l < pre.refresh_records.len() && pre.refresh_records[l]
                        == self@.refresh_records[k];
                assert((#[trigger] pre.refresh_records[l]).token_hash
                    == self@.refresh_records[k].token_hash);
                assert(rpred(self@.refresh_records[k]));
            }
        }
        let refresh_expiry = now + REFRESH_TOKEN_LIFETIME;
        let new_refresh = RefreshToken {
            token_hash: new_entropy,
            user_id: refresh.user_id.clone(),
            expiry: refresh_expiry,
        };
        self.refresh_records.push(
            RefreshRecord {
                token_hash: new_entropy,
                user_id: refresh.user_id.clone(),
                expiry: refresh_expiry,
            },
        );
        proof {
            let mid = pre.refresh_records.filter(rpred);
            let post = self@;
            assert(post.refresh_records =~= mid.push(
                RefreshRecordView {
                    token_hash: new_entropy,
                    user_id: refresh.user_id@,
                    expiry: refresh_expiry,
                },
            ));
            assert(post =~= (StoreView {
                refresh_records: mid.push(
                    RefreshRecordView {
                        token_hash: new_entropy,
                        user_id: refresh.user_id@,
                        expiry: refresh_expiry,
                    },
                ),
                ..pre
            }));
            assert(access@.groups =~= user_group_names(pre, refresh.user_id@));
            assert forall|a: int, b: int| 0 <= a < b < post.refresh_records.len() implies (
            #[trigger] post.refresh_records[a]).token_hash != (
            #[trigger] post.refresh_records[b]).token_hash by {
                if b < post.refresh_records.len() - 1 {
                    assert(post.refresh_records[a] == mid[a]);
                    assert(post.refresh_records[b] == mid[b]);
                } else {
                    assert(post.refresh_records[a] == mid[a]);
                    assert((#[trigger] mid[a]).token_hash != new_entropy);
                }
            }
            assert forall|i: int| 0 <= i < pre.users.len() implies has_user(
                post,
                (#[trigger] pre.users[i]).user_id,
            ) by {
                assert((#[trigger] post.users[i]).user_id == pre.users[i].user_id);
            }
            assert forall|i: int| 0 <= i < pre.groups.len() implies has_group_id(
                post,
                (#[trigger] pre.groups[i]).group_id,
            ) by {
                assert((#[trigger] post.groups[i]).group_id == pre.groups[i].group_id);
            }
            crate::store::lemma_endpoints_preserved(pre, post);
        }
        Result::Ok((access, new_refresh))
    }

    /// Revokes (logout) the refresh record carrying this hash; a no-op
    /// when there is none. Access tokens already issued stay valid
    /// until their own expiry.
    #[verifier::loop_isolation(false)]
    pub fn revoke_refresh_token(&mut self, token_hash: u64) -> (r: Result<(), DirectoryError>)
        requires
            store_wf(old(self)@),
        ensures
            store_wf(final(self)@),
            r is Ok,
            final(self)@ == (StoreView {
                refresh_records: old(self)@.refresh_records.filter(
                    |rec: RefreshRecordView| rec.token_hash != token_hash,
                ),
                ..old(self)@
            }),
            !has_record(final(self)@, token_hash),
    {
        let ghost pre = self@;
        let ghost rpred = |rec: RefreshRecordView| rec.token_hash != token_hash;
        let mut kept: Vec<RefreshRecord> = Vec::new();
        let mut i: usize = 0;
        while i < self.refresh_records.len()
            invariant
                i <= self.refresh_records.len(),
                Seq::new(kept@.len(), |k: int| kept@[k]@) =~= pre.refresh_records.subrange(
                    0,
                    i as int,
                ).filter(rpred),
            decreases self.refresh_records.len() - i,
        {
            proof {
                lemma_filter_step(pre.refresh_records, rpred, i as int);
            }
            if self.refresh_records[i].token_hash != token_hash {
                kept.push(self.refresh_records[i].clone());
            }
            i = i + 1;
        }
        self.refresh_records = kept;
        proof {
            lemma_subrange_full(pre.refresh_records);
            assert(self@.refresh_records =~= pre.refresh_records.filter(rpred));
            assert(self@ =~= (StoreView {
                refresh_records: pre.refresh_records.filter(rpred),
                ..pre
            }));
            lemma_filter_distinct_by_key(
                pre.refresh_records,
                rpred,
                |rec: RefreshRecordView| rec.token_hash,
            );
            assert forall|k: int| 0 <= k < self@.refresh_records.len() implies (
            #[trigger] self@.refresh_records[k]).token_hash != token_hash by {
                assert(rpred(self@.refresh_records[k]));
            }
            let post = self@;
            assert forall|i: int| 0 <= i < pre.users.len() implies has_user(
                post,
                (#[trigger] pre.users[i]).user_id,
            ) by {
                assert((#[trigger] post.users[i]).user_id == pre.users[i].user_id);
            }
            assert forall|i: int| 0 <= i < pre.groups.len() implies has_group_id(
                post,
                (#[trigger] pre.groups[i]).group_id,
            ) by {
                assert((#[trigger] post.groups[i]).group_id == pre.groups[i].group_id);
            }
            crate::store::lemma_endpoints_preserved(pre, post);
        }
        Result::Ok(())
    }

    /// One cleanup pass at time `now`: removes every refresh record
    /// whose expiry has passed and touches nothing else — no expired
    /// record survives, and no live record is removed.
    #[verifier::loop_isolation(false)]
    pub fn cleanup_expired_tokens(&mut self, now: u64)
        requires
            store_wf(old(self)@),
        ensures
            store_wf(final(self)@),
            final(self)@ == (StoreView {
                refresh_records: old(self)@.refresh_records.filter(
                    |rec: RefreshRecordView| rec.expiry > now,
                ),
                ..old(self)@
            }),
            forall|k: int|
                0 <= k < final(self)@.refresh_records.len() ==> (
                #[trigger] final(self)@.refresh_records[k]).expiry > now,
            forall|k: int|
                0 <= k < old(self)@.refresh_records.len() && (
                #[trigger] old(self)@.refresh_records[k]).expiry > now ==> final(
                self)@.refresh_records.contains(old(self)@.refresh_records[k]),
    {
        let ghost pre = self@;
        let ghost rpred = |rec: RefreshRecordView| rec.expiry > now;
        let mut kept: Vec<RefreshRecord> = Vec::new();
        let mut i: usize = 0;
        while i < self.refresh_records.len()
            invariant
                i <= self.refresh_records.len(),
                Seq::new(kept@.len(), |k: int| kept@[k]@) =~= pre.refresh_records.subrange(
                    0,
                    i as int,
                ).filter(rpred),
            decreases self.refresh_records.len() - i,
        {
            proof {
                lemma_filter_step(pre.refresh_records, rpred, i as int);
            }
            if self.refresh_records[i].expiry > now {
                kept.push(self.refresh_records[i].clone());
            }
            i = i + 1;
        }
        self.refresh_records = kept;
        proof {
            lemma_subrange_full(pre.refresh_records);
            assert(self@.refresh_records =~= pre.refresh_records.filter(rpred));
            assert(self@ =~= (StoreView {
                refresh_records: pre.refresh_records.filter(rpred),
                ..pre
            }));
            lemma_filter_distinct_by_key(
                pre.refresh_records,
                rpred,
                |rec: RefreshRecordView| rec.token_hash,
            );
            assert forall|k: int| 0 <= k < self@.refresh_records.len() implies (
            #[trigger] self@.refresh_records[k]).expiry > now by {
                assert(rpred(self@.refresh_records[k]));
            }
            let post = self@;
            assert forall|i: int| 0 <= i < pre.users.len() implies has_user(
                post,
                (#[trigger] pre.users[i]).user_id,
            ) by {
                assert((#[trigger] post.users[i]).user_id == pre.users[i].user_id);
            }
            assert forall|i: int| 0 <= i < pre.groups.len() implies has_group_id(
                post,
                (#[trigger] pre.groups[i]).group_id,
            ) by {
                assert((#[trigger] post.groups[i]).group_id == pre.groups[i].group_id);
            }
            crate::store::lemma_endpoints_preserved(pre, post);
        }
    }
}

} // verus!
