//! The per-connection protocol state machine. A connection is
//! `Unbound` until a bind succeeds, `Bound` to one identity afterwards
//! (rebinding replaces it), and `Closed` after unbind. Search is open
//! to bound connections, and to unbound ones only where anonymous read
//! is explicitly permitted; modification is gated on the three
//! privileged groups and on self-service, and a denied operation
//! performs no partial effect.

use vstd::prelude::*;

use crate::auth::ServerKey;
use crate::auth::credential_ok;
use crate::auth::key_wf;
use crate::filter::Filter;
use crate::filter::filter_valid;
use crate::filter::user_matches;
use crate::filter::eval_filter;
use crate::filter::validate_filter;
use crate::store::DirectoryStore;
use crate::store::StoreView;
use crate::store::store_wf;
use crate::store::has_user;
use crate::store::has_group_id;
use crate::store::member_of_named;
use crate::store::membership_added;
use crate::store::lemma_filter_step;
use crate::store::lemma_subrange_full;
use crate::store::patched_user;
use crate::types::DirectoryError;
use crate::types::MembershipView;
use crate::types::User;
use crate::types::UserView;
use crate::types::UserPatch;

verus! {

/// The connection state: illegal operations (such as modifying while
/// unbound) are rejected by the handlers below, and a closed
/// connection accepts nothing.
pub enum BindState {
    Unbound,
    Bound(String),
    Closed,
}

/// How a search interprets its base entry: one named entry, or the
/// whole subtree under the base.
pub enum SearchScope {
    Base(String),
    Subtree,
}

/// Whether a user entry falls inside the searched scope.
pub open spec fn scope_matches(scope: SearchScope, u: UserView) -> bool {
    match scope {
        SearchScope::Base(dn) => u.user_id == dn@,
        SearchScope::Subtree => true,
    }
}

/// The group whose members have full read/write rights.
pub open spec fn admin_group_name() -> Seq<char> {
    "lldap_admin"@
}

/// The group whose members may change passwords, but nothing else.
pub open spec fn password_manager_group_name() -> Seq<char> {
    "lldap_password_manager"@
}

/// The group whose members may only search: no modification at all,
/// not even of their own entry.
pub open spec fn readonly_group_name() -> Seq<char> {
    "lldap_strict_readonly"@
}

/// Who may modify a user entry: the user itself or an administrator,
/// and never a member of the strict-read-only group.
pub open spec fn may_modify(s: StoreView, actor: Seq<char>, target: Seq<char>) -> bool {
    &&& !member_of_named(s, actor, readonly_group_name())
    &&& (actor == target || member_of_named(s, actor, admin_group_name()))
}

/// Who may change a password: the user itself, an administrator or a
/// password manager, and never a member of the strict-read-only group.
pub open spec fn may_set_password(s: StoreView, actor: Seq<char>, target: Seq<char>) -> bool {
    &&& !member_of_named(s, actor, readonly_group_name())
    &&& (actor == target || member_of_named(s, actor, admin_group_name()) || member_of_named(
        s,
        actor,
        password_manager_group_name(),
    ))
}

/// Who may change the membership relation: administrators only, and
/// never a member of the strict-read-only group.
pub open spec fn may_manage_groups(s: StoreView, actor: Seq<char>) -> bool {
    &&& !member_of_named(s, actor, readonly_group_name())
    &&& member_of_named(s, actor, admin_group_name())
}

/// Bind: authenticates the connection as `user_id`. Success moves the
/// connection to `Bound(user_id)`, replacing any earlier binding; an
/// invalid credential (or unknown identity, indistinguishably) returns
/// `AuthenticationFailed` and leaves the state as it was.
pub fn handle_bind(
    state: &mut BindState,
    store: &DirectoryStore,
    key: &ServerKey,
    user_id: &String,
    password: &str,
) -> (r: Result<(), DirectoryError>)
    requires
        store_wf(store@),
        key_wf(key@),
        !(*old(state) is Closed),
    ensures
        (r is Ok) == credential_ok(store@, key@, user_id@, password@),
        r is Ok ==> (*final(state) matches BindState::Bound(u) && u@ == user_id@),
        r is Err ==> r->Err_0 == DirectoryError::AuthenticationFailed && *final(state) == *old(
            state),
{
    match store.verify_user_password(key, user_id, password) {
        Result::Ok(()) => {
            *state = BindState::Bound(user_id.clone());
            Result::Ok(())
        },
        Result::Err(_) => Result::Err(DirectoryError::AuthenticationFailed),
    }
}

/// Unbind: closes the connection from any state.
pub fn handle_unbind(state: &mut BindState)
    ensures
        *final(state) is Closed,
{
    *state = BindState::Closed;
}

/// Search: returns the user entries inside the scope that the filter
/// matches. An unbound connection may search only where anonymous read
/// is explicitly permitted; otherwise `AuthorizationDenied`. A filter
/// naming an unknown attribute fails `ValidationError`.
#[verifier::loop_isolation(false)]
pub fn handle_search(
    state: &BindState,
    store: &DirectoryStore,
    anonymous_allowed: bool,
    scope: &SearchScope,
    filter: Option<&Filter>,
) -> (r: Result<Vec<User>, DirectoryError>)
    requires
        !(state is Closed),
    ensures
        state is Unbound && !anonymous_allowed ==> r is Err && r->Err_0
            == DirectoryError::AuthorizationDenied,
        !(state is Unbound && !anonymous_allowed) ==> {
            &&& (r is Ok) == (match filter {
                Option::Some(f) => filter_valid(*f),
                Option::None => true,
            })
            &&& r is Err ==> r->Err_0 == DirectoryError::ValidationError
            &&& r matches Ok(out) ==> Seq::new(out@.len(), |i: int| out@[i]@)
                == store@.users.filter(
                |u: UserView| scope_matches(*scope, u) && (match filter {
                    Option::Some(f) => user_matches(*f, u),
                    Option::None => true,
                }),
            )
        },
{
    match state {
        BindState::Unbound => {
            if !anonymous_allowed {
                return Result::Err(DirectoryError::AuthorizationDenied);
            }
        },
        _ => {},
    }
    if let Option::Some(f) = filter {
        if !validate_filter(f) {
            return Result::Err(DirectoryError::ValidationError);
        }
    }
    let ghost pred = |u: UserView| scope_matches(*scope, u) && (match filter {
            Option::Some(f) => user_matches(*f, u),
            Option::None => true,
        });
    let mut out: Vec<User> = Vec::new();
    let mut i: usize = 0;
    while i < store.users.len()
        invariant
            i <= store.users.len(),
            Seq::new(out@.len(), |k: int| out@[k]@) =~= store@.users.subrange(0, i as int).filter(
                pred,
            ),
        decreases store.users.len() - i,
    {
        proof {
            lemma_filter_step(store@.users, pred, i as int);
        }
        let in_scope: bool = match scope {
            SearchScope::Base(dn) => store.users[i].user_id.eq(dn),
            SearchScope::Subtree => true,
        };
        let keep: bool = in_scope && (match filter {
            Option::Some(f) => eval_filter(f, &store.users[i]),
            Option::None => true,
        });
        if keep {
            out.push(store.users[i].clone());
        }
        i = i + 1;
    }
    proof {
        lemma_subrange_full(store@.users);
    }
    Result::Ok(out)
}

/// Modify: applies a partial update to the target user. Only a bound
/// connection whose identity may modify the target (itself, or an
/// administrator; never a strict-read-only member) gets through;
/// everything else is `AuthorizationDenied` with no partial effect.
pub fn handle_modify(
    state: &BindState,
    store: &mut DirectoryStore,
    target: &String,
    patch: &UserPatch,
) -> (r: Result<(), DirectoryError>)
    requires
        store_wf(old(store)@),
        !(state is Closed),
    ensures
        store_wf(final(store)@),
        state is Unbound ==> r is Err && r->Err_0 == DirectoryError::AuthorizationDenied && final(store)@ == old(store)@,
        state matches BindState::Bound(u) && !may_modify(old(store)@, u@, target@) ==> r is Err
            && r->Err_0 == DirectoryError::AuthorizationDenied && final(store)@ == old(store)@,
        state matches BindState::Bound(u) && may_modify(old(store)@, u@, target@) ==> {
            &&& (r is Ok) == has_user(old(store)@, target@)
            &&& r is Err ==> r->Err_0 == DirectoryError::NotFound && final(store)@ == old(store)@
            &&& r is Ok ==> exists|i: int|
                0 <= i < old(store)@.users.len() && (#[trigger] old(store)@.users[i]).user_id
                    == target@ && final(store)@ == (StoreView {
                    users: old(store)@.users.update(
                        i,
                        patched_user(old(store)@.users[i], *patch),
                    ),
                    ..old(store)@
                })
        },
{
    let actor = match state {
        BindState::Unbound => {
            return Result::Err(DirectoryError::AuthorizationDenied);
        },
        BindState::Bound(u) => u,
        BindState::Closed => {
            return Result::Err(DirectoryError::AuthorizationDenied);
        },
    };
    let readonly_name: String = "lldap_strict_readonly".to_owned();
    let admin_name: String = "lldap_admin".to_owned();
    if store.is_member_of_group_named(actor, &readonly_name) {
        return Result::Err(DirectoryError::AuthorizationDenied);
    }
    if !actor.eq(target) && !store.is_member_of_group_named(actor, &admin_name) {
        return Result::Err(DirectoryError::AuthorizationDenied);
    }
    store.update_user(target, patch)
}

/// Change password: re-registers the target's envelope. Allowed for
/// the target itself, an administrator or a password manager; never
/// for a strict-read-only member. Denial performs no effect.
pub fn handle_set_password(
    state: &BindState,
    store: &mut DirectoryStore,
    key: &ServerKey,
    target: &String,
    password: &str,
) -> (r: Result<(), DirectoryError>)
    requires
        store_wf(old(store)@),
        key_wf(key@),
        !(state is Closed),
    ensures
        store_wf(final(store)@),
        state is Unbound ==> r is Err && r->Err_0 == DirectoryError::AuthorizationDenied && final(store)@ == old(store)@,
        state matches BindState::Bound(u) && !may_set_password(old(store)@, u@, target@) ==> r
            is Err && r->Err_0 == DirectoryError::AuthorizationDenied && final(store)@ == old(store)@,
        state matches BindState::Bound(u) && may_set_password(old(store)@, u@, target@) ==> {
            &&& (r is Ok) == has_user(old(store)@, target@)
            &&& r is Err ==> r->Err_0 == DirectoryError::NotFound && final(store)@ == old(store)@
            &&& r is Ok ==> crate::auth::credential_ok(final(store)@, key@, target@, password@)
            &&& r is Ok ==> exists|i: int|
                0 <= i < old(store)@.users.len() && (#[trigger] old(store)@.users[i]).user_id
                    == target@ && final(store)@ == (StoreView {
                    users: old(store)@.users.update(
                        i,
                        (UserView {
                            envelope: Option::Some(
                                crate::auth::envelope_bytes(key@, password@),
                            ),
                            ..old(store)@.users[i]
                        }),
                    ),
                    ..old(store)@
                })
        },
{
    let actor = match state {
        BindState::Unbound => {
            return Result::Err(DirectoryError::AuthorizationDenied);
        },
        BindState::Bound(u) => u,
        BindState::Closed => {
            return Result::Err(DirectoryError::AuthorizationDenied);
        },
    };
    let readonly_name: String = "lldap_strict_readonly".to_owned();
    let admin_name: String = "lldap_admin".to_owned();
    let pm_name: String = "lldap_password_manager".to_owned();
    if store.is_member_of_group_named(actor, &readonly_name) {
        return Result::Err(DirectoryError::AuthorizationDenied);
    }
    if !actor.eq(target) && !store.is_member_of_group_named(actor, &admin_name)
        && !store.is_member_of_group_named(actor, &pm_name) {
        return Result::Err(DirectoryError::AuthorizationDenied);
    }
    store.register_password(key, target, password)
}

/// Membership change: adds the target user to a group. Administrators
/// only; denial performs no effect.
pub fn handle_add_to_group(
    state: &BindState,
    store: &mut DirectoryStore,
    target: &String,
    gid: u64,
) -> (r: Result<(), DirectoryError>)
    requires
        store_wf(old(store)@),
        !(state is Closed),
    ensures
        store_wf(final(store)@),
        state is Unbound ==> r is Err && r->Err_0 == DirectoryError::AuthorizationDenied && final(store)@ == old(store)@,
        state matches BindState::Bound(u) && !may_manage_groups(old(store)@, u@) ==> r is Err
            && r->Err_0 == DirectoryError::AuthorizationDenied && final(store)@ == old(store)@,
        state matches BindState::Bound(u) && may_manage_groups(old(store)@, u@) ==> {
            &&& (r is Ok) == (has_user(old(store)@, target@) && has_group_id(old(store)@, gid))
            &&& r is Err ==> r->Err_0 == DirectoryError::NotFound && final(store)@ == old(store)@
            &&& membership_added(old(store)@, final(store)@, target@, gid)
        },
{
    let actor = match state {
        BindState::Unbound => {
            return Result::Err(DirectoryError::AuthorizationDenied);
        },
        BindState::Bound(u) => u,
        BindState::Closed => {
            return Result::Err(DirectoryError::AuthorizationDenied);
        },
    };
    let readonly_name: String = "lldap_strict_readonly".to_owned();
    let admin_name: String = "lldap_admin".to_owned();
    if store.is_member_of_group_named(actor, &readonly_name) {
        return Result::Err(DirectoryError::AuthorizationDenied);
    }
    if !store.is_member_of_group_named(actor, &admin_name) {
        return Result::Err(DirectoryError::AuthorizationDenied);
    }
    store.add_user_to_group(target, gid)
}

/// Membership change: removes the target user from a group.
/// Administrators only; denial performs no effect.
pub fn handle_remove_from_group(
    state: &BindState,
    store: &mut DirectoryStore,
    target: &String,
    gid: u64,
) -> (r: Result<(), DirectoryError>)
    requires
        store_wf(old(store)@),
        !(state is Closed),
    ensures
        store_wf(final(store)@),
        state is Unbound ==> r is Err && r->Err_0 == DirectoryError::AuthorizationDenied && final(store)@ == old(store)@,
        state matches BindState::Bound(u) && !may_manage_groups(old(store)@, u@) ==> r is Err
            && r->Err_0 == DirectoryError::AuthorizationDenied && final(store)@ == old(store)@,
        state matches BindState::Bound(u) && may_manage_groups(old(store)@, u@) ==> r is Ok
            && final(store)@ == (StoreView {
            memberships: old(store)@.memberships.filter(
                |m: MembershipView| !(m.user_id == target@ && m.group_id == gid),
            ),
            ..old(store)@
        }),
{
    let actor = match state {
        BindState::Unbound => {
            return Result::Err(DirectoryError::AuthorizationDenied);
        },
        BindState::Bound(u) => u,
        BindState::Closed => {
            return Result::Err(DirectoryError::AuthorizationDenied);
        },
    };
    let readonly_name: String = "lldap_strict_readonly".to_owned();
    let admin_name: String = "lldap_admin".to_owned();
    if store.is_member_of_group_named(actor, &readonly_name) {
        return Result::Err(DirectoryError::AuthorizationDenied);
    }
    if !store.is_member_of_group_named(actor, &admin_name) {
        return Result::Err(DirectoryError::AuthorizationDenied);
    }
    store.remove_user_from_group(target, gid)
}

/// The value one entry holds under one attribute name: the three fixed
/// fields by their names, the extra attributes by theirs, and `None`
/// where the entry holds nothing under the name.
pub open spec fn attribute_value_of(u: UserView, name: Seq<char>) -> Option<Seq<char>> {
    if name == "user_id"@ {
        Option::Some(u.user_id)
    } else if name == "email"@ {
        Option::Some(u.email)
    } else if name == "display_name"@ {
        u.display_name
    } else if crate::store::has_attr(u.attributes, name) {
        Option::Some(u.attributes[crate::store::attr_index(u.attributes, name)].value)
    } else {
        Option::None
    }
}

/// What a search entry restricted to a list of requested attribute
/// names carries: one named value per requested name the entry holds,
/// in request order; requested names the entry has no value for are
/// simply absent.
pub open spec fn selected_attributes(u: UserView, names: Seq<Seq<char>>) -> Seq<
    crate::types::AttributeView,
>
    decreases names.len(),
{
    if names.len() == 0 {
        Seq::empty()
    } else {
        selected_attributes(u, names.drop_last()) + (match attribute_value_of(u, names.last()) {
            Option::Some(v) => seq![
                crate::types::AttributeView { name: names.last(), value: v },
            ],
            Option::None => Seq::empty(),
        })
    }
}

/// Restricts one entry to the requested attribute names, as the wire
/// serialization of a search result does.
#[verifier::loop_isolation(false)]
pub fn select_attributes(u: &User, names: &Vec<String>) -> (r: Vec<crate::types::Attribute>)
    requires
        crate::store::attrs_unique(u@.attributes),
    ensures
        Seq::new(r@.len(), |i: int| r@[i]@) == selected_attributes(
            u@,
            Seq::new(names@.len(), |i: int| names@[i]@),
        ),
{
    let ghost nviews = Seq::new(names@.len(), |i: int| names@[i]@);
    let mut out: Vec<crate::types::Attribute> = Vec::new();
    let mut i: usize = 0;
    while i < names.len()
        invariant
            i <= names.len(),
            Seq::new(out@.len(), |k: int| out@[k]@) =~= selected_attributes(
                u@,
                nviews.subrange(0, i as int),
            ),
        decreases names.len() - i,
    {
        proof {
            assert(nviews.subrange(0, i + 1).drop_last() =~= nviews.subrange(0, i as int));
            assert(nviews.subrange(0, i + 1).last() == nviews[i as int]);
        }
        let name = &names[i];
        let value: Option<String> = if name.eq(&"user_id".to_owned()) {
            Option::Some(u.user_id.clone())
        } else if name.eq(&"email".to_owned()) {
            Option::Some(u.email.clone())
        } else if name.eq(&"display_name".to_owned()) {
            match &u.display_name {
                Option::Some(d) => Option::Some(d.clone()),
                Option::None => Option::None,
            }
        } else {
            match crate::store::find_attr_index(&u.attributes, name) {
                Option::Some(ai) => {
                    proof {
                        let attrs = u@.attributes;
                        let ci = crate::store::attr_index(attrs, name@);
                        assert(crate::store::has_attr(attrs, name@));
                        assert(0 <= ci < attrs.len() && attrs[ci].name == name@);
                        if ci != ai as int {
                            assert(attrs[ci].name == attrs[ai as int].name);
                            assert(false);
                        }
                    }
                    Option::Some(u.attributes[ai].value.clone())
                },
                Option::None => Option::None,
            }
        };
        match value {
            Option::Some(v) => {
                out.push(crate::types::Attribute { name: name.clone(), value: v });
            },
            Option::None => {},
        }
        i = i + 1;
    }
    proof {
        assert(nviews.subrange(0, nviews.len() as int) =~= nviews);
    }
    out
}

} // verus!
