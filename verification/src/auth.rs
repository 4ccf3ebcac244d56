//! Password authentication. Registration turns a password into an
//! envelope bound to the server's identity key; login checks a
//! supplied password against the stored envelope. The derivation here
//! is a model of the password-exchange cryptography, not a
//! cryptographically strong construction: what is verified is its
//! functional behaviour — against an envelope registered for one
//! password, login accepts that password and no other.

use vstd::prelude::*;
use vstd::string::StrSliceExecFns;

use crate::store::DirectoryStore;
use crate::store::StoreView;
use crate::store::store_wf;
use crate::store::has_user;
use crate::store::has_group_id;
use crate::types::DirectoryError;
use crate::types::Envelope;
use crate::types::UserView;

verus! {

/// The server's process-wide identity key: generated once at startup
/// from entropy the caller supplies, never rotated per user.
pub struct ServerKey {
    pub secret: Vec<u64>,
}

impl View for ServerKey {
    type V = Seq<u64>;

    open spec fn view(&self) -> Seq<u64> {
        self.secret@
    }
}

/// A usable key has at least one word of secret material.
pub open spec fn key_wf(key: Seq<u64>) -> bool {
    key.len() > 0
}

/// Every character lies in the Unicode scalar-value range. The view of
/// any actual string satisfies this; an arbitrary mathematical sequence
/// of characters need not.
pub open spec fn chars_valid(s: Seq<char>) -> bool {
    forall|i: int| 0 <= i < s.len() ==> 0 <= (#[trigger] s[i]) as int <= 0x10FFFF
}

/// The envelope registration derives from a password under a key: one
/// word per password character, each masked by key material. For a
/// fixed key this mapping is injective in the password, which is what
/// makes login exact.
pub open spec fn envelope_bytes(key: Seq<u64>, pw: Seq<char>) -> Seq<u64> {
    Seq::new(pw.len(), |i: int| (pw[i] as u64) ^ key[i % (key.len() as int)])
}

/// For one key, two passwords derive the same envelope exactly when
/// they are the same password.
pub proof fn lemma_envelope_injective(key: Seq<u64>, p1: Seq<char>, p2: Seq<char>)
    requires
        key_wf(key),
        chars_valid(p1),
        chars_valid(p2),
    ensures
        (envelope_bytes(key, p1) == envelope_bytes(key, p2)) <==> (p1 == p2),
{
    if envelope_bytes(key, p1) == envelope_bytes(key, p2) {
        assert(envelope_bytes(key, p1).len() == p1.len());
        assert(envelope_bytes(key, p2).len() == p2.len());
        assert(p1.len() == p2.len());
        assert forall|i: int| 0 <= i < p1.len() implies p1[i] == p2[i] by {
            assert(envelope_bytes(key, p1)[i] == envelope_bytes(key, p2)[i]);
            let a = p1[i] as u64;
            let b = p2[i] as u64;
            let m = key[i % (key.len() as int)];
            assert((a ^ m) == (b ^ m) ==> a == b) by (bit_vector);
            assert(0 <= (p1[i]) as int <= 0x10FFFF);
            assert(0 <= (p2[i]) as int <= 0x10FFFF);
            assert(p1[i] as u64 == p2[i] as u64);
            assert(p1[i] as int == p2[i] as int);
        }
        assert(p1 =~= p2);
    }
}

/// Derives the envelope words for a password under a key.
#[verifier::loop_isolation(false)]
fn derive_envelope_data(key: &ServerKey, password: &str) -> (r: Vec<u64>)
    requires
        key_wf(key@),
    ensures
        r@ == envelope_bytes(key@, password@),
        chars_valid(password@),
{
    let n = password.unicode_len();
    let klen = key.secret.len();
    let mut data: Vec<u64> = Vec::new();
    let mut i: usize = 0;
    while i < n
        invariant
            i <= n,
            n == password@.len(),
            klen == key.secret.len(),
            data@.len() == i,
            forall|j: int|
                0 <= j < i ==> data@[j] == (password@[j] as u64) ^ key@[j % (key@.len() as int)],
            forall|j: int| 0 <= j < i ==> 0 <= (#[trigger] password@[j]) as int <= 0x10FFFF,
        decreases n - i,
    {
        let c = password.get_char(i);
        proof {
            assert(0 <= c as int <= 0x10FFFF);
        }
        data.push((c as u64) ^ key.secret[i % klen]);
        i = i + 1;
    }
    proof {
        assert(data@ =~= envelope_bytes(key@, password@));
    }
    data
}

/// Registration: produces the envelope the server stores for a
/// password. Equivalent to both protocol legs run in one process.
pub fn register_envelope(key: &ServerKey, password: &str) -> (r: Envelope)
    requires
        key_wf(key@),
    ensures
        r@ == envelope_bytes(key@, password@),
        chars_valid(password@),
{
    Envelope { data: derive_envelope_data(key, password) }
}

/// Login check against one envelope: true exactly when the supplied
/// password re-derives the stored envelope.
#[verifier::loop_isolation(false)]
pub fn verify_credential(key: &ServerKey, password: &str, envelope: &Envelope) -> (r: bool)
    requires
        key_wf(key@),
    ensures
        r == (envelope@ == envelope_bytes(key@, password@)),
        chars_valid(password@),
{
    let expected = derive_envelope_data(key, password);
    if expected.len() != envelope.data.len() {
        return false;
    }
    let mut i: usize = 0;
    while i < expected.len()
        invariant
            i <= expected.len(),
            expected.len() == envelope.data.len(),
            forall|j: int| 0 <= j < i ==> expected@[j] == envelope.data@[j],
        decreases expected.len() - i,
    {
        if expected[i] != envelope.data[i] {
            return false;
        }
        i = i + 1;
    }
    proof {
        assert(envelope@ =~= envelope_bytes(key@, password@));
    }
    true
}

/// The store holds, for `uid`, an envelope that `pw` re-derives under
/// `key`: the exact condition under which login succeeds.
pub open spec fn credential_ok(s: StoreView, key: Seq<u64>, uid: Seq<char>, pw: Seq<char>) -> bool {
    exists|i: int|
        0 <= i < s.users.len() && (#[trigger] s.users[i]).user_id == uid && s.users[i].envelope
            == Option::Some(envelope_bytes(key, pw))
}

/// Against an envelope registered for `registered`, login succeeds for
/// `supplied` exactly when `supplied` is `registered`: no other
/// password is accepted, and the registered one always is.
pub proof fn lemma_login_iff(
    s: StoreView,
    key: Seq<u64>,
    uid: Seq<char>,
    registered: Seq<char>,
    supplied: Seq<char>,
    i: int,
)
    requires
        store_wf(s),
        key_wf(key),
        chars_valid(registered),
        chars_valid(supplied),
        0 <= i < s.users.len(),
        s.users[i].user_id == uid,
        s.users[i].envelope == Option::Some(envelope_bytes(key, registered)),
    ensures
        credential_ok(s, key, uid, supplied) <==> (supplied == registered),
{
    lemma_envelope_injective(key, supplied, registered);
    if credential_ok(s, key, uid, supplied) {
        let wi = choose|wi: int|
            0 <= wi < s.users.len() && (#[trigger] s.users[wi]).user_id == uid && s.users[
                wi
            ].envelope == Option::Some(envelope_bytes(key, supplied));
        if wi != i {
            assert((#[trigger] s.users[wi]).user_id != (#[trigger] s.users[i]).user_id);
            assert(false);
        }
    }
    if supplied == registered {
        assert((#[trigger] s.users[i]).user_id == uid && s.users[i].envelope == Option::Some(
            envelope_bytes(key, supplied),
        ));
    }
}

/// The login law in full: for a user registered with `registered`,
/// login succeeds for a supplied password exactly when it is
/// `registered` — any other password is refused.
pub proof fn lemma_login_exact(
    s: StoreView,
    key: Seq<u64>,
    uid: Seq<char>,
    registered: Seq<char>,
    supplied: Seq<char>,
)
    requires
        store_wf(s),
        key_wf(key),
        chars_valid(registered),
        chars_valid(supplied),
        credential_ok(s, key, uid, registered),
    ensures
        credential_ok(s, key, uid, supplied) <==> (supplied == registered),
{
    let i = choose|i: int|
        0 <= i < s.users.len() && (#[trigger] s.users[i]).user_id == uid && s.users[i].envelope
            == Option::Some(envelope_bytes(key, registered));
    lemma_login_iff(s, key, uid, registered, supplied, i);
}

impl DirectoryStore {
    /// Stores the envelope registration produced for `user_id`,
    /// replacing any earlier one atomically; fails `NotFound`, changing
    /// nothing, when there is no such user.
    pub fn register_password(&mut self, key: &ServerKey, user_id: &String, password: &str) -> (r:
        Result<(), DirectoryError>)
        requires
            store_wf(old(self)@),
            key_wf(key@),
        ensures
            store_wf(final(self)@),
            (r is Ok) == has_user(old(self)@, user_id@),
            r is Err ==> r->Err_0 == DirectoryError::NotFound && final(self)@ == old(self)@,
            r is Ok ==> exists|i: int|
                0 <= i < old(self)@.users.len() && (#[trigger] old(self)@.users[i]).user_id
                    == user_id@ && final(self)@ == (StoreView {
                    users: old(self)@.users.update(
                        i,
                        (UserView {
                            envelope: Option::Some(envelope_bytes(key@, password@)),
                            ..old(self)@.users[i]
                        }),
                    ),
                    ..old(self)@
                }),
            r is Ok ==> credential_ok(final(self)@, key@, user_id@, password@),
    {
        let idx = match self.find_user_index(user_id) {
            Option::None => {
                return Result::Err(DirectoryError::NotFound);
            },
            Option::Some(idx) => idx,
        };
        let ghost pre = self@;
        let mut u = self.users.remove(idx);
        u.envelope = Option::Some(register_envelope(key, password));
        self.users.insert(idx, u);
        proof {
            let nu = (UserView {
                envelope: Option::Some(envelope_bytes(key@, password@)),
                ..pre.users[idx as int]
            });
            assert(self@.users[idx as int].attributes =~= nu.attributes);
            assert(self@.users[idx as int] =~= nu);
            assert(self@.users =~= pre.users.update(idx as int, nu));
            assert(self@ =~= (StoreView { users: pre.users.update(idx as int, nu), ..pre }));
            let post = self@;
            assert((#[trigger] pre.users[idx as int]).user_id == user_id@);
            assert((#[trigger] post.users[idx as int]).user_id == user_id@ && post.users[
                idx as int
            ].envelope == Option::Some(envelope_bytes(key@, password@)));
            assert forall|a: int, b: int| 0 <= a < b < post.users.len() implies (
            #[trigger] post.users[a]).user_id != (#[trigger] post.users[b]).user_id by {
                assert(post.users[a].user_id == pre.users[a].user_id);
                assert(post.users[b].user_id == pre.users[b].user_id);
            }
            assert forall|i: int| 0 <= i < pre.users.len() implies has_user(
                post,
                (#[trigger] pre.users[i]).user_id,
            ) by {
                assert((#[trigger] post.users[i]).user_id == pre.users[i].user_id);
            }
            assert forall|i: int| 0 <= i < pre.groups.len() implies has_group_id(
                post,
                (#[trigger] pre.groups[i]).group_id,
            ) by {
                assert((#[trigger] post.groups[i]).group_id == pre.groups[i].group_id);
            }
            crate::store::lemma_endpoints_preserved(pre, post);
            assert forall|a: int| 0 <= a < post.users.len() implies crate::store::attrs_unique(
                (#[trigger] post.users[a]).attributes,
            ) by {
                assert(post.users[a].attributes == pre.users[a].attributes);
                assert(crate::store::attrs_unique(pre.users[a].attributes));
            }
        }
        Result::Ok(())
    }

    /// The login check: succeeds exactly when the store holds, for
    /// `user_id`, an envelope that `password` re-derives. An unknown
    /// identity, a user without an envelope and a wrong password all
    /// fail with the same `AuthenticationFailed`, so that failures
    /// cannot be used to enumerate accounts.
    pub fn verify_user_password(&self, key: &ServerKey, user_id: &String, password: &str) -> (r:
        Result<(), DirectoryError>)
        requires
            store_wf(self@),
            key_wf(key@),
        ensures
            (r is Ok) == credential_ok(self@, key@, user_id@, password@),
            r is Err ==> r->Err_0 == DirectoryError::AuthenticationFailed,
    {
        let idx = match self.find_user_index(user_id) {
            Option::None => {
                return Result::Err(DirectoryError::AuthenticationFailed);
            },
            Option::Some(idx) => idx,
        };
        let ok: bool = match &self.users[idx].envelope {
            Option::None => false,
            Option::Some(env) => verify_credential(key, password, env),
        };
        proof {
            if !ok && credential_ok(self@, key@, user_id@, password@) {
                let wi = choose|wi: int|
                    0 <= wi < self@.users.len() && (#[trigger] self@.users[wi]).user_id == user_id@
                        && self@.users[wi].envelope == Option::Some(
                        envelope_bytes(key@, password@),
                    );
                if wi != idx as int {
                    assert((#[trigger] self@.users[wi]).user_id != (#[trigger] self@.users[
                        idx as int
                    ]).user_id);
                }
                assert(false);
            }
            if ok {
                assert((#[trigger] self@.users[idx as int]).user_id == user_id@
                    && self@.users[idx as int].envelope == Option::Some(
                    envelope_bytes(key@, password@),
                ));
            }
        }
        if ok {
            Result::Ok(())
        } else {
            Result::Err(DirectoryError::AuthenticationFailed)
        }
    }
}

} // verus!
