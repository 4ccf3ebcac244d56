//! The directory store and its capability interface: every read and
//! write of users, groups, memberships and refresh-token records goes
//! through the operations of this module, which enforce the business
//! invariants (unique identifiers, referential integrity, validation
//! independent of authorization) on every mutation.

use vstd::prelude::*;
use vstd::seq_lib::group_filter_ensures;

use crate::types::DirectoryError;
use crate::types::Membership;
use crate::types::MembershipView;
use crate::types::Group;
use crate::types::GroupView;
use crate::types::RefreshRecord;
use crate::types::RefreshRecordView;
use crate::types::User;
use crate::types::UserView;
use crate::types::CreateUserRequest;
use crate::types::Attribute;
use crate::types::AttributeUpdate;
use crate::types::UserPatch;
use crate::filter::Filter;
use crate::filter::filter_valid;
use crate::filter::user_matches;
use crate::filter::eval_filter;
use crate::filter::validate_filter;

verus! {

broadcast use group_filter_ensures;

/// The mathematical value of the whole store.
#[verifier::ext_equal]
pub ghost struct StoreView {
    pub users: Seq<UserView>,
    pub groups: Seq<GroupView>,
    pub memberships: Seq<MembershipView>,
    pub next_group_id: u64,
    pub refresh_records: Seq<RefreshRecordView>,
}

/// The relational store: users, groups, the membership relation between
/// them, the group-identifier allocator, and refresh-token records.
pub struct DirectoryStore {
    pub users: Vec<User>,
    pub groups: Vec<Group>,
    pub memberships: Vec<Membership>,
    pub next_group_id: u64,
    pub refresh_records: Vec<RefreshRecord>,
}

impl View for DirectoryStore {
    type V = StoreView;

    open spec fn view(&self) -> StoreView {
        StoreView {
            users: Seq::new(self.users@.len(), |i: int| self.users@[i]@),
            groups: Seq::new(self.groups@.len(), |i: int| self.groups@[i]@),
            memberships: Seq::new(self.memberships@.len(), |i: int| self.memberships@[i]@),
            next_group_id: self.next_group_id,
            refresh_records: Seq::new(
                self.refresh_records@.len(),
                |i: int| self.refresh_records@[i]@,
            ),
        }
    }
}

/// Some user carries this identifier.
pub open spec fn has_user(s: StoreView, id: Seq<char>) -> bool {
    exists|i: int| 0 <= i < s.users.len() && (#[trigger] s.users[i]).user_id == id
}

/// Some group carries this numeric identifier.
pub open spec fn has_group_id(s: StoreView, gid: u64) -> bool {
    exists|i: int| 0 <= i < s.groups.len() && (#[trigger] s.groups[i]).group_id == gid
}

/// Some group carries this display name.
pub open spec fn has_group_named(s: StoreView, name: Seq<char>) -> bool {
    exists|i: int| 0 <= i < s.groups.len() && (#[trigger] s.groups[i]).display_name == name
}

/// The membership relation contains this edge.
pub open spec fn has_membership(s: StoreView, uid: Seq<char>, gid: u64) -> bool {
    exists|i: int|
        0 <= i < s.memberships.len() && (#[trigger] s.memberships[i]).user_id == uid
            && s.memberships[i].group_id == gid
}

/// Attribute names are unique within one user.
pub open spec fn attrs_unique(attrs: Seq<crate::types::AttributeView>) -> bool {
    forall|j: int, k: int| 0 <= j < k < attrs.len() ==> attrs[j].name != attrs[k].name
}

/// The well-formedness invariant of the store: identifiers unique, the
/// group-id allocator ahead of every allocated id, membership edges
/// unique and referencing existing endpoints, attribute names unique per
/// user, and refresh-token hashes unique.
pub open spec fn store_wf(s: StoreView) -> bool {
    &&& forall|i: int, j: int|
        0 <= i < j < s.users.len() ==> (#[trigger] s.users[i]).user_id != (
        #[trigger] s.users[j]).user_id
    &&& forall|i: int, j: int|
        0 <= i < j < s.groups.len() ==> (#[trigger] s.groups[i]).group_id != (
        #[trigger] s.groups[j]).group_id
    &&& forall|i: int, j: int|
        0 <= i < j < s.groups.len() ==> (#[trigger] s.groups[i]).display_name != (
        #[trigger] s.groups[j]).display_name
    &&& forall|i: int| 0 <= i < s.groups.len() ==> (#[trigger] s.groups[i]).group_id
        < s.next_group_id
    &&& forall|i: int|
        0 <= i < s.memberships.len() ==> has_user(s, (#[trigger] s.memberships[i]).user_id)
    &&& forall|i: int|
        0 <= i < s.memberships.len() ==> has_group_id(s, (#[trigger] s.memberships[i]).group_id)
    &&& forall|i: int, j: int|
        0 <= i < j < s.memberships.len() ==> !((#[trigger] s.memberships[i]).user_id == (
        #[trigger] s.memberships[j]).user_id && s.memberships[i].group_id
            == s.memberships[j].group_id)
    &&& forall|i: int| 0 <= i < s.users.len() ==> attrs_unique((#[trigger] s.users[i]).attributes)
    &&& forall|i: int, j: int|
        0 <= i < j < s.refresh_records.len() ==> (#[trigger] s.refresh_records[i]).token_hash != (
        #[trigger] s.refresh_records[j]).token_hash
}

/// One unfolding step of `Seq::filter` along a growing prefix, for use
/// in loop invariants that rebuild a sequence.
pub proof fn lemma_filter_step<A>(s: Seq<A>, pred: spec_fn(A) -> bool, i: int)
    requires
        0 <= i < s.len(),
    ensures
        s.subrange(0, i + 1).filter(pred) == (if pred(s[i]) {
            s.subrange(0, i).filter(pred).push(s[i])
        } else {
            s.subrange(0, i).filter(pred)
        }),
{
    reveal(Seq::filter);
    assert(s.subrange(0, i + 1).drop_last() =~= s.subrange(0, i));
    assert(s.subrange(0, i + 1).last() == s[i]);
}

/// The full prefix of a sequence is the sequence itself.
pub proof fn lemma_subrange_full<A>(s: Seq<A>)
    ensures
        s.subrange(0, s.len() as int) == s,
{
    assert(s.subrange(0, s.len() as int) =~= s);
}

/// A change that keeps the membership relation, every user identifier
/// and every group identifier also keeps referential integrity: every
/// membership edge still references an existing user and group.
pub proof fn lemma_endpoints_preserved(pre: StoreView, post: StoreView)
    requires
        store_wf(pre),
        post.memberships == pre.memberships,
        forall|i: int|
            0 <= i < pre.users.len() ==> has_user(post, (#[trigger] pre.users[i]).user_id),
        forall|i: int|
            0 <= i < pre.groups.len() ==> has_group_id(post, (#[trigger] pre.groups[i]).group_id),
    ensures
        forall|k: int|
            0 <= k < post.memberships.len() ==> has_user(
                post,
                (#[trigger] post.memberships[k]).user_id,
            ) && has_group_id(post, post.memberships[k].group_id),
{
    assert forall|k: int| 0 <= k < post.memberships.len() implies has_user(
        post,
        (#[trigger] post.memberships[k]).user_id,
    ) && has_group_id(post, post.memberships[k].group_id) by {
        assert((#[trigger] pre.memberships[k]).user_id == post.memberships[k].user_id);
        let ui = choose|ui: int|
            0 <= ui < pre.users.len() && (#[trigger] pre.users[ui]).user_id == post.memberships[
                k
            ].user_id;
        assert(has_user(post, pre.users[ui].user_id));
        let gi = choose|gi: int|
            0 <= gi < pre.groups.len() && (#[trigger] pre.groups[gi]).group_id == post.memberships[
                k
            ].group_id;
        assert(has_group_id(post, pre.groups[gi].group_id));
    }
}

/// Adding one group changes the presence of exactly its own display
/// name: every other name is present afterwards exactly when it was
/// present before.
pub proof fn lemma_push_group_preserves_names(pre: StoreView, post: StoreView, g: GroupView)
    requires
        post.groups == pre.groups.push(g),
    ensures
        has_group_named(post, g.display_name),
        forall|n: Seq<char>|
            n != g.display_name ==> #[trigger] has_group_named(post, n) == has_group_named(pre, n),
{
    let last = post.groups.len() - 1;
    assert((#[trigger] post.groups[last]).display_name == g.display_name);
    assert forall|n: Seq<char>| n != g.display_name implies #[trigger] has_group_named(post, n)
        == has_group_named(pre, n) by {
        if has_group_named(post, n) {
            let wi = choose|wi: int|
                0 <= wi < post.groups.len() && (#[trigger] post.groups[wi]).display_name == n;
            assert(wi < pre.groups.len());
            assert((#[trigger] pre.groups[wi]).display_name == n);
        }
        if has_group_named(pre, n) {
            let wi = choose|wi: int|
                0 <= wi < pre.groups.len() && (#[trigger] pre.groups[wi]).display_name == n;
            assert((#[trigger] post.groups[wi]).display_name == n);
        }
    }
}

/// Every element of a filtered sequence is an element of the sequence
/// it started from.
pub proof fn lemma_filter_elements<A>(s: Seq<A>, pred: spec_fn(A) -> bool)
    ensures
        forall|k: int| 0 <= k < s.filter(pred).len() ==> s.contains(#[trigger] s.filter(pred)[k]),
    decreases s.len(),
{
    reveal(Seq::filter);
    if s.len() > 0 {
        let d = s.drop_last();
        lemma_filter_elements(d, pred);
        let w = s.filter(pred);
        let wd = d.filter(pred);
        assert forall|k: int| 0 <= k < w.len() implies s.contains(#[trigger] w[k]) by {
            if pred(s.last()) && k == w.len() - 1 {
                assert(w[k] == s[s.len() - 1]);
            } else {
                assert(w[k] == wd[k]);
                assert(d.contains(wd[k]));
                let l = choose|l: int| 0 <= l < d.len() && d[l] == wd[k];
                assert(s[l] == w[k]);
            }
        }
    }
}

/// Filtering keeps keys distinct and yields only elements of the
/// sequence it started from.
pub proof fn lemma_filter_distinct_by_key<A, K>(
    s: Seq<A>,
    pred: spec_fn(A) -> bool,
    key: spec_fn(A) -> K,
)
    requires
        forall|i: int, j: int| 0 <= i < j < s.len() ==> key(s[i]) != key(s[j]),
    ensures
        forall|i: int, j: int|
            0 <= i < j < s.filter(pred).len() ==> key(#[trigger] s.filter(pred)[i]) != key(
                #[trigger] s.filter(pred)[j],
            ),
        forall|k: int| 0 <= k < s.filter(pred).len() ==> s.contains(#[trigger] s.filter(pred)[k]),
    decreases s.len(),
{
    reveal(Seq::filter);
    if s.len() > 0 {
        let d = s.drop_last();
        lemma_filter_distinct_by_key(d, pred, key);
        let w = s.filter(pred);
        let wd = d.filter(pred);
        assert forall|k: int| 0 <= k < w.len() implies s.contains(#[trigger] w[k]) by {
            if pred(s.last()) && k == w.len() - 1 {
                assert(w[k] == s[s.len() - 1]);
            } else {
                assert(w[k] == wd[k]);
                assert(d.contains(wd[k]));
                let l = choose|l: int| 0 <= l < d.len() && d[l] == wd[k];
                assert(s[l] == w[k]);
            }
        }
        assert forall|i: int, j: int| 0 <= i < j < w.len() implies key(#[trigger] w[i]) != key(
            #[trigger] w[j],
        ) by {
            if pred(s.last()) && j == w.len() - 1 {
                assert(w[i] == wd[i]);
                assert(d.contains(wd[i]));
                let l = choose|l: int| 0 <= l < d.len() && d[l] == wd[i];
                assert(key(s[l]) != key(s[s.len() - 1]));
            } else {
                assert(w[i] == wd[i]);
                assert(w[j] == wd[j]);
            }
        }
    }
}

/// The view a freshly created user has: the requested fields, no extra
/// attributes, no password envelope yet.
pub open spec fn new_user_view(req: CreateUserRequest, now: u64) -> UserView {
    UserView {
        user_id: req.user_id@,
        email: req.email@,
        display_name: match req.display_name {
            Option::Some(d) => Option::Some(d@),
            Option::None => Option::None,
        },
        attributes: Seq::empty(),
        envelope: Option::None,
        creation_time: now,
    }
}

impl DirectoryStore {
    /// An empty store, trivially well formed.
    pub fn new() -> (s: Self)
        ensures
            store_wf(s@),
            s@.users.len() == 0,
            s@.groups.len() == 0,
            s@.memberships.len() == 0,
            s@.refresh_records.len() == 0,
            s@.next_group_id == 1,
    {
        DirectoryStore {
            users: Vec::new(),
            groups: Vec::new(),
            memberships: Vec::new(),
            next_group_id: 1,
            refresh_records: Vec::new(),
        }
    }

    /// Index of the user carrying `id`, if any.
    #[verifier::loop_isolation(false)]
    pub fn find_user_index(&self, id: &String) -> (r: Option<usize>)
        ensures
            match r {
                Option::Some(i) => i < self@.users.len() && self@.users[i as int].user_id == id@,
                Option::None => !has_user(self@, id@),
            },
    {
        let mut i: usize = 0;
        while i < self.users.len()
            invariant
                i <= self.users.len(),
                forall|j: int| 0 <= j < i ==> (#[trigger] self@.users[j]).user_id != id@,
            decreases self.users.len() - i,
        {
            if self.users[i].user_id.eq(id) {
                return Option::Some(i);
            }
            i = i + 1;
        }
        Option::None
    }

    /// Index of the group carrying the numeric identifier `gid`, if any.
    #[verifier::loop_isolation(false)]
    pub fn find_group_index(&self, gid: u64) -> (r: Option<usize>)
        ensures
            match r {
                Option::Some(i) => i < self@.groups.len() && self@.groups[i as int].group_id == gid,
                Option::None => !has_group_id(self@, gid),
            },
    {
        let mut i: usize = 0;
        while i < self.groups.len()
            invariant
                i <= self.groups.len(),
                forall|j: int| 0 <= j < i ==> (#[trigger] self@.groups[j]).group_id != gid,
            decreases self.groups.len() - i,
        {
            if self.groups[i].group_id == gid {
                return Option::Some(i);
            }
            i = i + 1;
        }
        Option::None
    }

    /// Index of the group carrying the display name `name`, if any.
    #[verifier::loop_isolation(false)]
    pub fn find_group_index_by_name(&self, name: &String) -> (r: Option<usize>)
        ensures
            match r {
                Option::Some(i) => i < self@.groups.len() && self@.groups[i as int].display_name
                    == name@,
                Option::None => !has_group_named(self@, name@),
            },
    {
        let mut i: usize = 0;
        while i < self.groups.len()
            invariant
                i <= self.groups.len(),
                forall|j: int| 0 <= j < i ==> (#[trigger] self@.groups[j]).display_name != name@,
            decreases self.groups.len() - i,
        {
            if self.groups[i].display_name.eq(name) {
                return Option::Some(i);
            }
            i = i + 1;
        }
        Option::None
    }

    /// Index of the membership edge `(uid, gid)`, if present.
    #[verifier::loop_isolation(false)]
    pub fn find_membership_index(&self, uid: &String, gid: u64) -> (r: Option<usize>)
        ensures
            match r {
                Option::Some(i) => i < self@.memberships.len() && self@.memberships[
                    i as int
                ].user_id == uid@ && self@.memberships[i as int].group_id == gid,
                Option::None => !has_membership(self@, uid@, gid),
            },
    {
        let mut i: usize = 0;
        while i < self.memberships.len()
            invariant
                i <= self.memberships.len(),
                forall|j: int|
                    0 <= j < i ==> !((#[trigger] self@.memberships[j]).user_id == uid@
                        && self@.memberships[j].group_id == gid),
            decreases self.memberships.len() - i,
        {
            if self.memberships[i].group_id == gid && self.memberships[i].user_id.eq(uid) {
                return Option::Some(i);
            }
            i = i + 1;
        }
        Option::None
    }

    /// Creates a new user from the request, stamped with the creation
    /// time `now`. Fails `AlreadyExists`, changing nothing, when the
    /// identifier is taken.
    pub fn create_user(&mut self, req: CreateUserRequest, now: u64) -> (r: Result<
        (),
        DirectoryError,
    >)
        requires
            store_wf(old(self)@),
        ensures
            store_wf(final(self)@),
            has_user(old(self)@, req.user_id@) ==> r is Err && r->Err_0
                == DirectoryError::AlreadyExists && final(self)@ == old(self)@,
            !has_user(old(self)@, req.user_id@) ==> r is Ok && final(self)@ == (StoreView {
                users: old(self)@.users.push(new_user_view(req, now)),
                ..old(self)@
            }),
    {
        if self.find_user_index(&req.user_id).is_some() {
            return Result::Err(DirectoryError::AlreadyExists);
        }
        let u = User {
            user_id: req.user_id,
            email: req.email,
            display_name: req.display_name,
            attributes: Vec::new(),
            envelope: Option::None,
            creation_time: now,
        };
        self.users.push(u);
        proof {
            assert(self@.users[self@.users.len() - 1].attributes =~= Seq::empty());
            assert(self@.users =~= old(self)@.users.push(new_user_view(req, now)));
            assert(self@ =~= (StoreView {
                users: old(self)@.users.push(new_user_view(req, now)),
                ..old(self)@
            }));
            let pre = old(self)@;
            let post = self@;
            assert(post.memberships == pre.memberships);
            assert(post.groups == pre.groups);
            assert(post.refresh_records == pre.refresh_records);
            assert forall|i: int, j: int| 0 <= i < j < post.users.len() implies (
            #[trigger] post.users[i]).user_id != (#[trigger] post.users[j]).user_id by {
                if j == post.users.len() - 1 {
                    assert(post.users[i] == pre.users[i]);
                    assert(pre.users[i].user_id != req.user_id@);
                }
            }
            assert forall|i: int| 0 <= i < pre.users.len() implies has_user(
                post,
                (#[trigger] pre.users[i]).user_id,
            ) by {
                assert((#[trigger] post.users[i]).user_id == pre.users[i].user_id);
            }
            assert forall|i: int| 0 <= i < pre.groups.len() implies has_group_id(
                post,
                (#[trigger] pre.groups[i]).group_id,
            ) by {
                assert((#[trigger] post.groups[i]).group_id == pre.groups[i].group_id);
            }
            crate::store::lemma_endpoints_preserved(pre, post);
            assert forall|k: int| 0 <= k < post.users.len() implies attrs_unique(
                (#[trigger] post.users[k]).attributes,
            ) by {
                if k < post.users.len() - 1 {
                    assert(post.users[k] == pre.users[k]);
                    assert(attrs_unique(pre.users[k].attributes));
                }
            }
        }
        Result::Ok(())
    }

    /// Returns a copy of the user carrying `id`, or `NotFound`.
    pub fn get_user_details(&self, id: &String) -> (r: Result<User, DirectoryError>)
        ensures
            (r is Ok) == has_user(self@, id@),
            r matches Ok(u) ==> exists|i: int|
                0 <= i < self@.users.len() && (#[trigger] self@.users[i]).user_id == id@ && u@
                    == self@.users[i],
            r matches Err(e) ==> e == DirectoryError::NotFound,
    {
        match self.find_user_index(id) {
            Option::Some(i) => {
                let u = self.users[i].clone();
                proof {
                    assert((#[trigger] self@.users[i as int]).user_id == id@ && u@ == self@.users[
                        i as int
                    ]);
                }
                Result::Ok(u)
            },
            Option::None => Result::Err(DirectoryError::NotFound),
        }
    }

    /// Removes the user carrying `id` together with every membership
    /// edge that references it, atomically; fails `NotFound`, changing
    /// nothing, when there is no such user. No group listing taken
    /// afterwards can reference the removed user.
    #[verifier::loop_isolation(false)]
    pub fn delete_user(&mut self, id: &String) -> (r: Result<(), DirectoryError>)
        requires
            store_wf(old(self)@),
        ensures
            store_wf(final(self)@),
            (r is Ok) == has_user(old(self)@, id@),
            r is Err ==> r->Err_0 == DirectoryError::NotFound && final(self)@ == old(self)@,
            r is Ok ==> final(self)@ == (StoreView {
                users: old(self)@.users.filter(|u: UserView| u.user_id != id@),
                memberships: old(self)@.memberships.filter(|m: MembershipView| m.user_id != id@),
                ..old(self)@
            }),
            forall|k: int|
                0 <= k < final(self)@.memberships.len() ==> (#[trigger] final(self)@.memberships[k]).user_id
                    != id@,
            forall|k: int|
                0 <= k < final(self)@.users.len() ==> (#[trigger] final(self)@.users[k]).user_id != id@,
    {
        if self.find_user_index(id).is_none() {
            return Result::Err(DirectoryError::NotFound);
        }
        let ghost pre = self@;
        let ghost upred = |u: UserView| u.user_id != id@;
        let ghost mpred = |m: MembershipView| m.user_id != id@;

        let mut kept_users: Vec<User> = Vec::new();
        let mut i: usize = 0;
        while i < self.users.len()
            invariant
                i <= self.users.len(),
                Seq::new(kept_users@.len(), |k: int| kept_users@[k]@) =~= pre.users.subrange(
                    0,
                    i as int,
                ).filter(upred),
            decreases self.users.len() - i,
        {
            proof {
                lemma_filter_step(pre.users, upred, i as int);
            }
            if !self.users[i].user_id.eq(id) {
                kept_users.push(self.users[i].clone());
            }
            i = i + 1;
        }
        self.users = kept_users;

        let mut kept_ms: Vec<Membership> = Vec::new();
        let mut j: usize = 0;
        while j < self.memberships.len()
            invariant
                j <= self.memberships.len(),
                Seq::new(kept_ms@.len(), |k: int| kept_ms@[k]@) =~= pre.memberships.subrange(
                    0,
                    j as int,
                ).filter(mpred),
            decreases self.memberships.len() - j,
        {
            proof {
                lemma_filter_step(pre.memberships, mpred, j as int);
            }
            if !self.memberships[j].user_id.eq(id) {
                kept_ms.push(self.memberships[j].clone());
            }
            j = j + 1;
        }
        self.memberships = kept_ms;

        proof {
            lemma_subrange_full(pre.users);
            lemma_subrange_full(pre.memberships);
            assert(self@.users =~= pre.users.filter(upred));
            assert(self@.memberships =~= pre.memberships.filter(mpred));
            assert(self@ =~= (StoreView {
                users: pre.users.filter(upred),
                memberships: pre.memberships.filter(mpred),
                ..pre
            }));
            lemma_filter_distinct_by_key(pre.users, upred, |u: UserView| u.user_id);
            lemma_filter_distinct_by_key(
                pre.memberships,
                mpred,
                |m: MembershipView| (m.user_id, m.group_id),
            );
            assert forall|k: int| 0 <= k < self@.memberships.len() implies has_user(
                self@,
                (#[trigger] self@.memberships[k]).user_id,
            ) && has_group_id(self@, self@.memberships[k].group_id) by {
                let m = self@.memberships[k];
                assert(pre.memberships.contains(m));
                let l = choose|l: int| 0 <= l < pre.memberships.len() && pre.memberships[l] == m;
                assert((#[trigger] pre.memberships[l]).user_id == m.user_id);
                assert(has_user(pre, m.user_id));
                let ui = choose|ui: int|
                    0 <= ui < pre.users.len() && (#[trigger] pre.users[ui]).user_id == m.user_id;
                assert(upred(pre.users[ui]));
                assert(pre.users.filter(upred).contains(pre.users[ui]));
                let li = choose|li: int|
                    0 <= li < self@.users.len() && self@.users[li] == pre.users[ui];
                assert((#[trigger] self@.users[li]).user_id == m.user_id);
                assert(has_group_id(pre, m.group_id));
                let gi = choose|gi: int|
                    0 <= gi < pre.groups.len() && (#[trigger] pre.groups[gi]).group_id
                        == m.group_id;
                assert((#[trigger] self@.groups[gi]).group_id == m.group_id);
            }
            assert forall|k: int| 0 <= k < self@.users.len() implies attrs_unique(
                (#[trigger] self@.users[k]).attributes,
            ) by {
                assert(pre.users.contains(self@.users[k]));
                let l = choose|l: int| 0 <= l < pre.users.len() && pre.users[l] == self@.users[k];
                assert(attrs_unique(pre.users[l].attributes));
            }
        }
        Result::Ok(())
    }

    /// Creates a group under a fresh numeric identifier and returns the
    /// identifier. Fails `AlreadyExists`, changing nothing, when the
    /// display name is taken, and `StorageError` when the identifier
    /// space is exhausted.
    pub fn create_group(&mut self, name: &String) -> (r: Result<u64, DirectoryError>)
        requires
            store_wf(old(self)@),
        ensures
            store_wf(final(self)@),
            has_group_named(old(self)@, name@) ==> r is Err && r->Err_0
                == DirectoryError::AlreadyExists && final(self)@ == old(self)@,
            !has_group_named(old(self)@, name@) && old(self)@.next_group_id < u64::MAX ==> r is Ok
                && r->Ok_0 == old(self)@.next_group_id && final(self)@ == (StoreView {
                groups: old(self)@.groups.push(
                    GroupView { group_id: old(self)@.next_group_id, display_name: name@ },
                ),
                next_group_id: (old(self)@.next_group_id + 1) as u64,
                ..old(self)@
            }),
            !has_group_named(old(self)@, name@) && old(self)@.next_group_id == u64::MAX ==> r is Err
                && r->Err_0 == DirectoryError::StorageError && final(self)@ == old(self)@,
    {
        if self.find_group_index_by_name(name).is_some() {
            return Result::Err(DirectoryError::AlreadyExists);
        }
        if self.next_group_id == u64::MAX {
            return Result::Err(DirectoryError::StorageError);
        }
        let gid = self.next_group_id;
        self.groups.push(Group { group_id: gid, display_name: name.clone() });
        self.next_group_id = gid + 1;
        proof {
            assert(self@.groups =~= old(self)@.groups.push(
                GroupView { group_id: gid, display_name: name@ },
            ));
            assert(self@ =~= (StoreView {
                groups: old(self)@.groups.push(GroupView { group_id: gid, display_name: name@ }),
                next_group_id: (gid + 1) as u64,
                ..old(self)@
            }));
            let pre = old(self)@;
            let post = self@;
            assert forall|i: int, j: int| 0 <= i < j < post.groups.len() implies (
            #[trigger] post.groups[i]).group_id != (#[trigger] post.groups[j]).group_id
                && post.groups[i].display_name != post.groups[j].display_name by {
                if j == post.groups.len() - 1 {
                    assert(post.groups[i] == pre.groups[i]);
                    assert(pre.groups[i].group_id < pre.next_group_id);
                    assert(pre.groups[i].display_name != name@);
                }
            }
            assert forall|i: int| 0 <= i < post.groups.len() implies (
            #[trigger] post.groups[i]).group_id < post.next_group_id by {
                if i < post.groups.len() - 1 {
                    assert(post.groups[i] == pre.groups[i]);
                    assert(pre.groups[i].group_id < pre.next_group_id);
                }
            }
            assert forall|i: int| 0 <= i < pre.users.len() implies has_user(
                post,
                (#[trigger] pre.users[i]).user_id,
            ) by {
                assert((#[trigger] post.users[i]).user_id == pre.users[i].user_id);
            }
            assert forall|i: int| 0 <= i < pre.groups.len() implies has_group_id(
                post,
                (#[trigger] pre.groups[i]).group_id,
            ) by {
                assert((#[trigger] post.groups[i]).group_id == pre.groups[i].group_id);
            }
            crate::store::lemma_endpoints_preserved(pre, post);
        }
        Result::Ok(gid)
    }

    /// Adds the membership edge `(user_id, gid)`. Fails `NotFound`,
    /// changing nothing, when either endpoint is absent; re-adding an
    /// existing edge is a no-op, not an error.
    pub fn add_user_to_group(&mut self, user_id: &String, gid: u64) -> (r: Result<
        (),
        DirectoryError,
    >)
        requires
            store_wf(old(self)@),
        ensures
            store_wf(final(self)@),
            (r is Ok) == (has_user(old(self)@, user_id@) && has_group_id(old(self)@, gid)),
            r is Err ==> r->Err_0 == DirectoryError::NotFound && final(self)@ == old(self)@,
            r is Ok && has_membership(old(self)@, user_id@, gid) ==> final(self)@ == old(self)@,
            r is Ok && !has_membership(old(self)@, user_id@, gid) ==> final(self)@ == (StoreView {
                memberships: old(self)@.memberships.push(
                    MembershipView { user_id: user_id@, group_id: gid },
                ),
                ..old(self)@
            }),
            r is Ok ==> has_membership(final(self)@, user_id@, gid),
            membership_added(old(self)@, final(self)@, user_id@, gid),
    {
        let ui = match self.find_user_index(user_id) {
            Option::None => {
                return Result::Err(DirectoryError::NotFound);
            },
            Option::Some(ui) => ui,
        };
        let gi = match self.find_group_index(gid) {
            Option::None => {
                return Result::Err(DirectoryError::NotFound);
            },
            Option::Some(gi) => gi,
        };
        match self.find_membership_index(user_id, gid) {
            Option::Some(i) => {
                proof {
                    assert((#[trigger] self@.memberships[i as int]).user_id == user_id@
                        && self@.memberships[i as int].group_id == gid);
                }
                Result::Ok(())
            },
            Option::None => {
                self.memberships.push(Membership { user_id: user_id.clone(), group_id: gid });
                proof {
                    let pre = old(self)@;
                    let post = self@;
                    assert(post.memberships =~= pre.memberships.push(
                        MembershipView { user_id: user_id@, group_id: gid },
                    ));
                    assert(post =~= (StoreView {
                        memberships: pre.memberships.push(
                            MembershipView { user_id: user_id@, group_id: gid },
                        ),
                        ..pre
                    }));
                    let n = post.memberships.len() - 1;
                    assert((#[trigger] post.memberships[n]).user_id == user_id@
                        && post.memberships[n].group_id == gid);
                    assert forall|i: int, j: int| 0 <= i < j < post.memberships.len() implies !((
                    #[trigger] post.memberships[i]).user_id == (
                    #[trigger] post.memberships[j]).user_id && post.memberships[i].group_id
                        == post.memberships[j].group_id) by {
                        if j == post.memberships.len() - 1 {
                            assert(post.memberships[i] == pre.memberships[i]);
                            assert(!((#[trigger] pre.memberships[i]).user_id == user_id@
                                && pre.memberships[i].group_id == gid));
                        }
                    }
                    assert forall|k: int| 0 <= k < post.memberships.len() implies has_user(
                        post,
                        (#[trigger] post.memberships[k]).user_id,
                    ) && has_group_id(post, post.memberships[k].group_id) by {
                        if k == post.memberships.len() - 1 {
                            assert((#[trigger] post.users[ui as int]).user_id == user_id@);
                            assert((#[trigger] post.groups[gi as int]).group_id == gid);
                        } else {
                            assert((#[trigger] pre.memberships[k]).user_id == post.memberships[
                                k
                            ].user_id);
                            let ui2 = choose|ui2: int|
                                0 <= ui2 < pre.users.len() && (#[trigger] pre.users[ui2]).user_id
                                    == post.memberships[k].user_id;
                            assert((#[trigger] post.users[ui2]).user_id == post.memberships[
                                k
                            ].user_id);
                            let gi2 = choose|gi2: int|
                                0 <= gi2 < pre.groups.len() && (#[trigger] pre.groups[gi2]).group_id
                                    == post.memberships[k].group_id;
                            assert((#[trigger] post.groups[gi2]).group_id == post.memberships[
                                k
                            ].group_id);
                        }
                    }
                }
                Result::Ok(())
            },
        }
    }

    /// Removes the membership edge `(user_id, gid)`; a no-op when the
    /// edge does not exist.
    #[verifier::loop_isolation(false)]
    pub fn remove_user_from_group(&mut self, user_id: &String, gid: u64) -> (r: Result<
        (),
        DirectoryError,
    >)
        requires
            store_wf(old(self)@),
        ensures
            store_wf(final(self)@),
            r is Ok,
            final(self)@ == (StoreView {
                memberships: old(self)@.memberships.filter(
                    |m: MembershipView| !(m.user_id == user_id@ && m.group_id == gid),
                ),
                ..old(self)@
            }),
            !has_membership(final(self)@, user_id@, gid),
    {
        let ghost pre = self@;
        let ghost mpred = |m: MembershipView| !(m.user_id == user_id@ && m.group_id == gid);
        let mut kept: Vec<Membership> = Vec::new();
        let mut i: usize = 0;
        while i < self.memberships.len()
            invariant
                i <= self.memberships.len(),
                Seq::new(kept@.len(), |k: int| kept@[k]@) =~= pre.memberships.subrange(
                    0,
                    i as int,
                ).filter(mpred),
            decreases self.memberships.len() - i,
        {
            proof {
                lemma_filter_step(pre.memberships, mpred, i as int);
            }
            if !(self.memberships[i].group_id == gid && self.memberships[i].user_id.eq(user_id)) {
                kept.push(self.memberships[i].clone());
            }
            i = i + 1;
        }
        self.memberships = kept;
        proof {
            lemma_subrange_full(pre.memberships);
            assert(self@.memberships =~= pre.memberships.filter(mpred));
            assert(self@ =~= (StoreView { memberships: pre.memberships.filter(mpred), ..pre }));
            lemma_filter_distinct_by_key(
                pre.memberships,
                mpred,
                |m: MembershipView| (m.user_id, m.group_id),
            );
            assert forall|k: int| 0 <= k < self@.memberships.len() implies has_user(
                self@,
                (#[trigger] self@.memberships[k]).user_id,
            ) && has_group_id(self@, self@.memberships[k].group_id) by {
                let m = self@.memberships[k];
                assert(pre.memberships.contains(m));
                let l = choose|l: int| 0 <= l < pre.memberships.len() && pre.memberships[l] == m;
                assert((#[trigger] pre.memberships[l]).user_id == m.user_id);
                let ui = choose|ui: int|
                    0 <= ui < pre.users.len() && (#[trigger] pre.users[ui]).user_id == m.user_id;
                assert((#[trigger] self@.users[ui]).user_id == m.user_id);
                let gi = choose|gi: int|
                    0 <= gi < pre.groups.len() && (#[trigger] pre.groups[gi]).group_id
                        == m.group_id;
                assert((#[trigger] self@.groups[gi]).group_id == m.group_id);
            }
        }
        Result::Ok(())
    }

    /// Removes the group carrying `gid` together with every membership
    /// edge that references it; fails `NotFound`, changing nothing,
    /// when there is no such group.
    #[verifier::loop_isolation(false)]
    pub fn delete_group(&mut self, gid: u64) -> (r: Result<(), DirectoryError>)
        requires
            store_wf(old(self)@),
        ensures
            store_wf(final(self)@),
            (r is Ok) == has_group_id(old(self)@, gid),
            r is Err ==> r->Err_0 == DirectoryError::NotFound && final(self)@ == old(self)@,
            r is Ok ==> final(self)@ == (StoreView {
                groups: old(self)@.groups.filter(|g: GroupView| g.group_id != gid),
                memberships: old(self)@.memberships.filter(
                    |m: MembershipView| m.group_id != gid,
                ),
                ..old(self)@
            }),
            forall|k: int|
                0 <= k < final(self)@.memberships.len() ==> (#[trigger] final(self)@.memberships[k]).group_id
                    != gid,
    {
        if self.find_group_index(gid).is_none() {
            return Result::Err(DirectoryError::NotFound);
        }
        let ghost pre = self@;
        let ghost gpred = |g: GroupView| g.group_id != gid;
        let ghost mpred = |m: MembershipView| m.group_id != gid;

        let mut kept_groups: Vec<Group> = Vec::new();
        let mut i: usize = 0;
        while i < self.groups.len()
            invariant
                i <= self.groups.len(),
                Seq::new(kept_groups@.len(), |k: int| kept_groups@[k]@) =~= pre.groups.subrange(
                    0,
                    i as int,
                ).filter(gpred),
            decreases self.groups.len() - i,
        {
            proof {
                lemma_filter_step(pre.groups, gpred, i as int);
            }
            if self.groups[i].group_id != gid {
                kept_groups.push(self.groups[i].clone());
            }
            i = i + 1;
        }
        self.groups = kept_groups;

        let mut kept_ms: Vec<Membership> = Vec::new();
        let mut j: usize = 0;
        while j < self.memberships.len()
            invariant
                j <= self.memberships.len(),
                Seq::new(kept_ms@.len(), |k: int| kept_ms@[k]@) =~= pre.memberships.subrange(
                    0,
                    j as int,
                ).filter(mpred),
            decreases self.memberships.len() - j,
        {
            proof {
                lemma_filter_step(pre.memberships, mpred, j as int);
            }
            if self.memberships[j].group_id != gid {
                kept_ms.push(self.memberships[j].clone());
            }
            j = j + 1;
        }
        self.memberships = kept_ms;

        proof {
            lemma_subrange_full(pre.groups);
            lemma_subrange_full(pre.memberships);
            assert(self@.groups =~= pre.groups.filter(gpred));
            assert(self@.memberships =~= pre.memberships.filter(mpred));
            assert(self@ =~= (StoreView {
                groups: pre.groups.filter(gpred),
                memberships: pre.memberships.filter(mpred),
                ..pre
            }));
            lemma_filter_distinct_by_key(pre.groups, gpred, |g: GroupView| g.group_id);
            lemma_filter_distinct_by_key(pre.groups, gpred, |g: GroupView| g.display_name);
            lemma_filter_distinct_by_key(
                pre.memberships,
                mpred,
                |m: MembershipView| (m.user_id, m.group_id),
            );
            assert forall|k: int| 0 <= k < self@.groups.len() implies (
            #[trigger] self@.groups[k]).group_id < self@.next_group_id by {
                assert(pre.groups.contains(self@.groups[k]));
                let l = choose|l: int| 0 <= l < pre.groups.len() && pre.groups[l] == self@.groups[k];
                assert(pre.groups[l].group_id < pre.next_group_id);
            }
            assert forall|k: int| 0 <= k < self@.memberships.len() implies has_user(
                self@,
                (#[trigger] self@.memberships[k]).user_id,
            ) && has_group_id(self@, self@.memberships[k].group_id) by {
                let m = self@.memberships[k];
                assert(pre.memberships.contains(m));
                let l = choose|l: int| 0 <= l < pre.memberships.len() && pre.memberships[l] == m;
                assert((#[trigger] pre.memberships[l]).user_id == m.user_id);
                assert(has_user(pre, m.user_id));
                let ui = choose|ui: int|
                    0 <= ui < pre.users.len() && (#[trigger] pre.users[ui]).user_id == m.user_id;
                assert((#[trigger] self@.users[ui]).user_id == m.user_id);
                let gi = choose|gi: int|
                    0 <= gi < pre.groups.len() && (#[trigger] pre.groups[gi]).group_id
                        == m.group_id;
                assert(gpred(pre.groups[gi]));
                assert(pre.groups.filter(gpred).contains(pre.groups[gi]));
                let li = choose|li: int|
                    0 <= li < self@.groups.len() && self@.groups[li] == pre.groups[gi];
                assert((#[trigger] self@.groups[li]).group_id == m.group_id);
            }
        }
        Result::Ok(())
    }
}

/// Exactly the store change `add_user_to_group` performs: nothing when an
/// endpoint is missing or the edge is already present, otherwise one new
/// edge at the end of the relation.
pub open spec fn membership_added(pre: StoreView, post: StoreView, uid: Seq<char>, gid: u64) -> bool {
    if has_user(pre, uid) && has_group_id(pre, gid) {
        if has_membership(pre, uid, gid) {
            post == pre
        } else {
            post == (StoreView {
                memberships: pre.memberships.push(MembershipView { user_id: uid, group_id: gid }),
                ..pre
            })
        }
    } else {
        post == pre
    }
}

/// `add_user_to_group` is idempotent: adding the same membership twice
/// leaves exactly the store that adding it once leaves.
pub proof fn lemma_add_membership_idempotent(
    s0: StoreView,
    s1: StoreView,
    s2: StoreView,
    uid: Seq<char>,
    gid: u64,
)
    requires
        membership_added(s0, s1, uid, gid),
        membership_added(s1, s2, uid, gid),
    ensures
        s2 == s1,
{
    if has_user(s0, uid) && has_group_id(s0, gid) && !has_membership(s0, uid, gid) {
        let n = s1.memberships.len() - 1;
        assert((#[trigger] s1.memberships[n]).user_id == uid && s1.memberships[n].group_id == gid);
        assert(has_membership(s1, uid, gid));
        let ui = choose|ui: int|
            0 <= ui < s0.users.len() && (#[trigger] s0.users[ui]).user_id == uid;
        assert((#[trigger] s1.users[ui]).user_id == uid);
        let gi = choose|gi: int|
            0 <= gi < s0.groups.len() && (#[trigger] s0.groups[gi]).group_id == gid;
        assert((#[trigger] s1.groups[gi]).group_id == gid);
    }
}

/// The view of a vector of attributes.
pub open spec fn attrs_view(attrs: Vec<Attribute>) -> Seq<crate::types::AttributeView> {
    Seq::new(attrs@.len(), |i: int| attrs@[i]@)
}

/// Some attribute carries this name.
pub open spec fn has_attr(attrs: Seq<crate::types::AttributeView>, name: Seq<char>) -> bool {
    exists|i: int| 0 <= i < attrs.len() && (#[trigger] attrs[i]).name == name
}

/// The index of the attribute carrying this name, where it exists and
/// is unique.
pub open spec fn attr_index(attrs: Seq<crate::types::AttributeView>, name: Seq<char>) -> int {
    choose|i: int| 0 <= i < attrs.len() && (#[trigger] attrs[i]).name == name
}

/// The effect of one attribute change: assignment replaces the value
/// under an existing name or appends a new attribute; unset removes the
/// name, and removing an absent name changes nothing.
pub open spec fn apply_attribute_update(
    attrs: Seq<crate::types::AttributeView>,
    up: AttributeUpdate,
) -> Seq<crate::types::AttributeView> {
    match up {
        AttributeUpdate::Assign(name, value) => if has_attr(attrs, name@) {
            attrs.update(
                attr_index(attrs, name@),
                crate::types::AttributeView { name: name@, value: value@ },
            )
        } else {
            attrs.push(crate::types::AttributeView { name: name@, value: value@ })
        },
        AttributeUpdate::Unset(name) => if has_attr(attrs, name@) {
            attrs.remove(attr_index(attrs, name@))
        } else {
            attrs
        },
    }
}

/// The effect of a whole list of attribute changes, applied in order.
pub open spec fn apply_attribute_updates(
    attrs: Seq<crate::types::AttributeView>,
    ups: Seq<AttributeUpdate>,
) -> Seq<crate::types::AttributeView>
    decreases ups.len(),
{
    if ups.len() == 0 {
        attrs
    } else {
        apply_attribute_update(apply_attribute_updates(attrs, ups.drop_last()), ups.last())
    }
}

/// One unfolding step of `apply_attribute_updates` along a growing
/// prefix.
pub proof fn lemma_apply_updates_step(
    attrs: Seq<crate::types::AttributeView>,
    ups: Seq<AttributeUpdate>,
    k: int,
)
    requires
        0 <= k < ups.len(),
    ensures
        apply_attribute_updates(attrs, ups.subrange(0, k + 1)) == apply_attribute_update(
            apply_attribute_updates(attrs, ups.subrange(0, k)),
            ups[k],
        ),
{
    assert(ups.subrange(0, k + 1).drop_last() =~= ups.subrange(0, k));
    assert(ups.subrange(0, k + 1).last() == ups[k]);
}

/// What a user looks like after a partial update: fields present in the
/// patch replace the old ones, the attribute changes apply in order,
/// and everything else is untouched.
pub open spec fn patched_user(u: UserView, patch: UserPatch) -> UserView {
    UserView {
        email: match patch.email {
            Option::Some(e) => e@,
            Option::None => u.email,
        },
        display_name: match patch.display_name {
            Option::Some(d) => Option::Some(d@),
            Option::None => u.display_name,
        },
        attributes: apply_attribute_updates(u.attributes, patch.attribute_updates@),
        ..u
    }
}

/// The users of `users` that a valid filter matches, in store order.
pub open spec fn users_matching(users: Seq<UserView>, f: Filter) -> Seq<UserView> {
    users.filter(|u: UserView| user_matches(f, u))
}

/// A filter over group entries: by display name, or by one member.
pub enum GroupFilter {
    DisplayName(String),
    Member(String),
}

/// Whether one group filter holds of a group, relative to the
/// membership relation of the store.
pub open spec fn group_matches(s: StoreView, f: GroupFilter, g: GroupView) -> bool {
    match f {
        GroupFilter::DisplayName(name) => g.display_name == name@,
        GroupFilter::Member(uid) => has_membership(s, uid@, g.group_id),
    }
}

/// The groups a group filter matches, in store order.
pub open spec fn groups_matching(s: StoreView, f: GroupFilter) -> Seq<GroupView> {
    s.groups.filter(|g: GroupView| group_matches(s, f, g))
}

/// The identifiers of the members of one group, in store order.
pub open spec fn group_member_ids(s: StoreView, gid: u64) -> Seq<Seq<char>> {
    s.memberships.filter(|m: MembershipView| m.group_id == gid).map_values(
        |m: MembershipView| m.user_id,
    )
}

/// The display names of the groups one user belongs to, in store order.
pub open spec fn user_group_names(s: StoreView, uid: Seq<char>) -> Seq<Seq<char>> {
    s.groups.filter(|g: GroupView| has_membership(s, uid, g.group_id)).map_values(
        |g: GroupView| g.display_name,
    )
}

/// The user belongs to some group carrying this display name.
pub open spec fn member_of_named(s: StoreView, uid: Seq<char>, name: Seq<char>) -> bool {
    exists|i: int|
        0 <= i < s.groups.len() && (#[trigger] s.groups[i]).display_name == name
            && has_membership(s, uid, s.groups[i].group_id)
}

/// Index of the attribute carrying `name`, if any.
#[verifier::loop_isolation(false)]
pub(crate) fn find_attr_index(attrs: &Vec<Attribute>, name: &String) -> (r: Option<usize>)
    ensures
        match r {
            Option::Some(i) => i < attrs_view(*attrs).len() && attrs_view(*attrs)[i as int].name
                == name@,
            Option::None => !has_attr(attrs_view(*attrs), name@),
        },
{
    let mut i: usize = 0;
    while i < attrs.len()
        invariant
            i <= attrs.len(),
            forall|j: int| 0 <= j < i ==> (#[trigger] attrs_view(*attrs)[j]).name != name@,
        decreases attrs.len() - i,
    {
        if attrs[i].name.eq(name) {
            return Option::Some(i);
        }
        i = i + 1;
    }
    Option::None
}

impl DirectoryStore {
    /// The users the filter matches, in store order (a stable order for
    /// one call); `None` matches all. A filter naming an unknown
    /// attribute fails `ValidationError` rather than silently matching
    /// nothing.
    #[verifier::loop_isolation(false)]
    pub fn list_users(&self, filter: Option<&Filter>) -> (r: Result<Vec<User>, DirectoryError>)
        ensures
            filter matches Option::Some(f) ==> ((r is Ok) == filter_valid(*f)),
            filter is None ==> r is Ok,
            r is Err ==> r->Err_0 == DirectoryError::ValidationError,
            r matches Ok(out) ==> Seq::new(out@.len(), |i: int| out@[i]@) == (match filter {
                Option::Some(f) => users_matching(self@.users, *f),
                Option::None => self@.users,
            }),
    {
        match filter {
            Option::Some(f) => {
                if !validate_filter(f) {
                    return Result::Err(DirectoryError::ValidationError);
                }
                let ghost pred = |u: UserView| user_matches(*f, u);
                let mut out: Vec<User> = Vec::new();
                let mut i: usize = 0;
                while i < self.users.len()
                    invariant
                        i <= self.users.len(),
                        Seq::new(out@.len(), |k: int| out@[k]@) =~= self@.users.subrange(
                            0,
                            i as int,
                        ).filter(pred),
                    decreases self.users.len() - i,
                {
                    proof {
                        lemma_filter_step(self@.users, pred, i as int);
                    }
                    if eval_filter(f, &self.users[i]) {
                        out.push(self.users[i].clone());
                    }
                    i = i + 1;
                }
                proof {
                    lemma_subrange_full(self@.users);
                }
                Result::Ok(out)
            },
            Option::None => {
                let mut out: Vec<User> = Vec::new();
                let mut i: usize = 0;
                while i < self.users.len()
                    invariant
                        i <= self.users.len(),
                        Seq::new(out@.len(), |k: int| out@[k]@) =~= self@.users.subrange(
                            0,
                            i as int,
                        ),
                    decreases self.users.len() - i,
                {
                    out.push(self.users[i].clone());
                    i = i + 1;
                }
                proof {
                    lemma_subrange_full(self@.users);
                }
                Result::Ok(out)
            },
        }
    }

    /// The groups the filter matches, in store order; `None` matches
    /// all.
    #[verifier::loop_isolation(false)]
    pub fn list_groups(&self, filter: Option<&GroupFilter>) -> (r: Result<
        Vec<Group>,
        DirectoryError,
    >)
        ensures
            r is Ok,
            r matches Ok(out) ==> Seq::new(out@.len(), |i: int| out@[i]@) == (match filter {
                Option::Some(f) => groups_matching(self@, *f),
                Option::None => self@.groups,
            }),
    {
        match filter {
            Option::Some(f) => {
                let ghost pred = |g: GroupView| group_matches(self@, *f, g);
                let mut out: Vec<Group> = Vec::new();
                let mut i: usize = 0;
                while i < self.groups.len()
                    invariant
                        i <= self.groups.len(),
                        Seq::new(out@.len(), |k: int| out@[k]@) =~= self@.groups.subrange(
                            0,
                            i as int,
                        ).filter(pred),
                    decreases self.groups.len() - i,
                {
                    proof {
                        lemma_filter_step(self@.groups, pred, i as int);
                    }
                    let keep: bool = match f {
                        GroupFilter::DisplayName(name) => self.groups[i].display_name.eq(name),
                        GroupFilter::Member(uid) => self.find_membership_index(
                            uid,
                            self.groups[i].group_id,
                        ).is_some(),
                    };
                    if keep {
                        out.push(self.groups[i].clone());
                    }
                    i = i + 1;
                }
                proof {
                    lemma_subrange_full(self@.groups);
                }
                Result::Ok(out)
            },
            Option::None => {
                let mut out: Vec<Group> = Vec::new();
                let mut i: usize = 0;
                while i < self.groups.len()
                    invariant
                        i <= self.groups.len(),
                        Seq::new(out@.len(), |k: int| out@[k]@) =~= self@.groups.subrange(
                            0,
                            i as int,
                        ),
                    decreases self.groups.len() - i,
                {
                    out.push(self.groups[i].clone());
                    i = i + 1;
                }
                proof {
                    lemma_subrange_full(self@.groups);
                }
                Result::Ok(out)
            },
        }
    }

    /// The identifiers of the members of the group carrying `gid`, or
    /// `NotFound`.
    #[verifier::loop_isolation(false)]
    pub fn members_of_group(&self, gid: u64) -> (r: Result<Vec<String>, DirectoryError>)
        ensures
            (r is Ok) == has_group_id(self@, gid),
            r is Err ==> r->Err_0 == DirectoryError::NotFound,
            r matches Ok(out) ==> Seq::new(out@.len(), |i: int| out@[i]@) == group_member_ids(
                self@,
                gid,
            ),
    {
        if self.find_group_index(gid).is_none() {
            return Result::Err(DirectoryError::NotFound);
        }
        let ghost pred = |m: MembershipView| m.group_id == gid;
        let mut out: Vec<String> = Vec::new();
        let mut i: usize = 0;
        while i < self.memberships.len()
            invariant
                i <= self.memberships.len(),
                Seq::new(out@.len(), |k: int| out@[k]@) =~= self@.memberships.subrange(
                    0,
                    i as int,
                ).filter(pred).map_values(|m: MembershipView| m.user_id),
            decreases self.memberships.len() - i,
        {
            proof {
                lemma_filter_step(self@.memberships, pred, i as int);
                let sub = self@.memberships.subrange(0, i as int);
                let m = self@.memberships[i as int];
                if pred(m) {
                    assert(self@.memberships.subrange(0, i + 1).filter(pred).map_values(
                        |m: MembershipView| m.user_id,
                    ) =~= sub.filter(pred).map_values(|m: MembershipView| m.user_id).push(
                        m.user_id,
                    ));
                }
            }
            if self.memberships[i].group_id == gid {
                out.push(self.memberships[i].user_id.clone());
            }
            i = i + 1;
        }
        proof {
            lemma_subrange_full(self@.memberships);
        }
        Result::Ok(out)
    }

    /// The display names of the groups the user belongs to, in store
    /// order: the membership snapshot embedded in session tokens.
    #[verifier::loop_isolation(false)]
    pub fn groups_of_user(&self, uid: &String) -> (r: Vec<String>)
        ensures
            Seq::new(r@.len(), |i: int| r@[i]@) == user_group_names(self@, uid@),
    {
        let ghost pred = |g: GroupView| has_membership(self@, uid@, g.group_id);
        let mut out: Vec<String> = Vec::new();
        let mut i: usize = 0;
        while i < self.groups.len()
            invariant
                i <= self.groups.len(),
                Seq::new(out@.len(), |k: int| out@[k]@) =~= self@.groups.subrange(
                    0,
                    i as int,
                ).filter(pred).map_values(|g: GroupView| g.display_name),
            decreases self.groups.len() - i,
        {
            proof {
                lemma_filter_step(self@.groups, pred, i as int);
                let sub = self@.groups.subrange(0, i as int);
                let g = self@.groups[i as int];
                if pred(g) {
                    assert(self@.groups.subrange(0, i + 1).filter(pred).map_values(
                        |g: GroupView| g.display_name,
                    ) =~= sub.filter(pred).map_values(|g: GroupView| g.display_name).push(
                        g.display_name,
                    ));
                }
            }
            if self.find_membership_index(uid, self.groups[i].group_id).is_some() {
                out.push(self.groups[i].display_name.clone());
            }
            i = i + 1;
        }
        proof {
            lemma_subrange_full(self@.groups);
        }
        out
    }

    /// Whether the user belongs to the group carrying this display
    /// name: the primitive every authorization decision is made from.
    pub fn is_member_of_group_named(&self, uid: &String, name: &String) -> (r: bool)
        requires
            store_wf(self@),
        ensures
            r == member_of_named(self@, uid@, name@),
    {
        match self.find_group_index_by_name(name) {
            Option::None => {
                proof {
                    if member_of_named(self@, uid@, name@) {
                        let wi = choose|wi: int|
                            0 <= wi < self@.groups.len() && (
                            #[trigger] self@.groups[wi]).display_name == name@ && has_membership(
                                self@,
                                uid@,
                                self@.groups[wi].group_id,
                            );
                        assert(has_group_named(self@, name@));
                    }
                }
                false
            },
            Option::Some(gi) => {
                let gid = self.groups[gi].group_id;
                let r = self.find_membership_index(uid, gid).is_some();
                proof {
                    if r {
                        assert(member_of_named(self@, uid@, name@));
                    } else {
                        if member_of_named(self@, uid@, name@) {
                            let wi = choose|wi: int|
                                0 <= wi < self@.groups.len() && (
                                #[trigger] self@.groups[wi]).display_name == name@
                                    && has_membership(self@, uid@, self@.groups[wi].group_id);
                            assert(self@.groups[wi].display_name == self@.groups[
                                gi as int
                            ].display_name);
                            assert(wi == gi as int);
                        }
                    }
                }
                r
            },
        }
    }

    /// Applies a partial update to the user carrying `id`; fails
    /// `NotFound`, changing nothing, when there is no such user.
    #[verifier::loop_isolation(false)]
    pub fn update_user(&mut self, id: &String, patch: &UserPatch) -> (r: Result<
        (),
        DirectoryError,
    >)
        requires
            store_wf(old(self)@),
        ensures
            store_wf(final(self)@),
            (r is Ok) == has_user(old(self)@, id@),
            r is Err ==> r->Err_0 == DirectoryError::NotFound && final(self)@ == old(self)@,
            r is Ok ==> exists|i: int|
                0 <= i < old(self)@.users.len() && (#[trigger] old(self)@.users[i]).user_id == id@
                    && final(self)@ == (StoreView {
                    users: old(self)@.users.update(
                        i,
                        patched_user(old(self)@.users[i], *patch),
                    ),
                    ..old(self)@
                }),
    {
        let idx = match self.find_user_index(id) {
            Option::None => {
                return Result::Err(DirectoryError::NotFound);
            },
            Option::Some(idx) => idx,
        };
        let ghost pre = self@;
        let ghost orig = pre.users[idx as int];
        let mut u = self.users.remove(idx);
        match &patch.email {
            Option::Some(e) => {
                u.email = e.clone();
            },
            Option::None => {},
        }
        match &patch.display_name {
            Option::Some(d) => {
                u.display_name = Option::Some(d.clone());
            },
            Option::None => {},
        }
        let ghost ups = patch.attribute_updates@;
        let mut k: usize = 0;
        while k < patch.attribute_updates.len()
            invariant
                k <= ups.len(),
                attrs_view(u.attributes) =~= apply_attribute_updates(
                    orig.attributes,
                    ups.subrange(0, k as int),
                ),
                attrs_unique(attrs_view(u.attributes)),
                u.user_id@ == orig.user_id,
                u.creation_time == orig.creation_time,
                u.email@ == (match patch.email {
                    Option::Some(e) => e@,
                    Option::None => orig.email,
                }),
                (match u.display_name {
                    Option::Some(d) => Option::Some(d@),
                    Option::None => Option::<Seq<char>>::None,
                }) == (match patch.display_name {
                    Option::Some(d) => Option::Some(d@),
                    Option::None => orig.display_name,
                }),
                (match u.envelope {
                    Option::Some(e) => Option::Some(e@),
                    Option::None => Option::<Seq<u64>>::None,
                }) == orig.envelope,
            decreases ups.len() - k,
        {
            let ghost cur = attrs_view(u.attributes);
            proof {
                lemma_apply_updates_step(orig.attributes, ups, k as int);
            }
            match &patch.attribute_updates[k] {
                AttributeUpdate::Assign(n, v) => {
                    match find_attr_index(&u.attributes, n) {
                        Option::Some(ai) => {
                            u.attributes.remove(ai);
                            u.attributes.insert(
                                ai,
                                Attribute { name: n.clone(), value: v.clone() },
                            );
                            proof {
                                let ci = attr_index(cur, n@);
                                assert(has_attr(cur, n@));
                                assert(0 <= ci < cur.len() && cur[ci].name == n@);
                                if ci != ai as int {
                                    assert(cur[ci].name == cur[ai as int].name);
                                    assert(false);
                                }
                                assert(attrs_view(u.attributes) =~= cur.update(
                                    ai as int,
                                    crate::types::AttributeView { name: n@, value: v@ },
                                ));
                                let newv = attrs_view(u.attributes);
                                assert forall|a: int, b: int|
                                    0 <= a < b < newv.len() implies newv[a].name != newv[
                                    b
                                ].name by {
                                    assert(newv[a].name == cur[a].name);
                                    assert(newv[b].name == cur[b].name);
                                }
                            }
                        },
                        Option::None => {
                            u.attributes.push(Attribute { name: n.clone(), value: v.clone() });
                            proof {
                                assert(attrs_view(u.attributes) =~= cur.push(
                                    crate::types::AttributeView { name: n@, value: v@ },
                                ));
                                let newv = attrs_view(u.attributes);
                                assert forall|a: int, b: int|
                                    0 <= a < b < newv.len() implies newv[a].name != newv[
                                    b
                                ].name by {
                                    if b == newv.len() - 1 {
                                        assert(cur[a].name != n@);
                                    }
                                }
                            }
                        },
                    }
                },
                AttributeUpdate::Unset(n) => {
                    match find_attr_index(&u.attributes, n) {
                        Option::Some(ai) => {
                            u.attributes.remove(ai);
                            proof {
                                let ci = attr_index(cur, n@);
                                assert(has_attr(cur, n@));
                                assert(0 <= ci < cur.len() && cur[ci].name == n@);
                                if ci != ai as int {
                                    assert(cur[ci].name == cur[ai as int].name);
                                    assert(false);
                                }
                                assert(attrs_view(u.attributes) =~= cur.remove(ai as int));
                                let newv = attrs_view(u.attributes);
                                assert forall|a: int, b: int|
                                    0 <= a < b < newv.len() implies newv[a].name != newv[
                                    b
                                ].name by {
                                    let pa: int = if a < ai as int { a } else { a + 1 };
                                    let pb: int = if b < ai as int { b } else { b + 1 };
                                    assert(newv[a] == cur[pa]);
                                    assert(newv[b] == cur[pb]);
                                }
                            }
                        },
                        Option::None => {},
                    }
                },
            }
            k = k + 1;
        }
        self.users.insert(idx, u);
        proof {
            assert(ups.subrange(0, ups.len() as int) =~= ups);
            let nu = patched_user(orig, *patch);
            assert(self@.users[idx as int].attributes =~= nu.attributes);
            assert(self@.users[idx as int] =~= nu);
            assert(self@.users =~= pre.users.update(idx as int, nu));
            assert(self@ =~= (StoreView { users: pre.users.update(idx as int, nu), ..pre }));
            assert((#[trigger] pre.users[idx as int]).user_id == id@);
            let post = self@;
            assert forall|a: int, b: int| 0 <= a < b < post.users.len() implies (
            #[trigger] post.users[a]).user_id != (#[trigger] post.users[b]).user_id by {
                assert(post.users[a].user_id == pre.users[a].user_id);
                assert(post.users[b].user_id == pre.users[b].user_id);
            }
            assert forall|i: int| 0 <= i < pre.users.len() implies has_user(
                post,
                (#[trigger] pre.users[i]).user_id,
            ) by {
                assert((#[trigger] post.users[i]).user_id == pre.users[i].user_id);
            }
            assert forall|i: int| 0 <= i < pre.groups.len() implies has_group_id(
                post,
                (#[trigger] pre.groups[i]).group_id,
            ) by {
                assert((#[trigger] post.groups[i]).group_id == pre.groups[i].group_id);
            }
            crate::store::lemma_endpoints_preserved(pre, post);
            assert forall|a: int| 0 <= a < post.users.len() implies attrs_unique(
                (#[trigger] post.users[a]).attributes,
            ) by {
                if a != idx as int {
                    assert(post.users[a] == pre.users[a]);
                    assert(attrs_unique(pre.users[a].attributes));
                }
            }
        }
        Result::Ok(())
    }
}

/// Once no membership row references a user, no group-member listing
/// can name it: the other half of what deleting a user guarantees.
pub proof fn lemma_absent_user_not_listed(s: StoreView, id: Seq<char>, gid: u64)
    requires
        forall|k: int| 0 <= k < s.memberships.len() ==> (#[trigger] s.memberships[k]).user_id != id,
    ensures
        !group_member_ids(s, gid).contains(id),
{
    let mpred = |m: MembershipView| m.group_id == gid;
    let w = s.memberships.filter(mpred);
    lemma_filter_elements(s.memberships, mpred);
    assert forall|k: int| 0 <= k < group_member_ids(s, gid).len() implies group_member_ids(
        s,
        gid,
    )[k] != id by {
        assert(s.memberships.contains(w[k]));
        let l = choose|l: int| 0 <= l < s.memberships.len() && s.memberships[l] == w[k];
        assert((#[trigger] s.memberships[l]).user_id != id);
    }
    if group_member_ids(s, gid).contains(id) {
        let j = choose|j: int|
            0 <= j < group_member_ids(s, gid).len() && group_member_ids(s, gid)[j] == id;
        assert(false);
    }
}

} // verus!
