//! Startup bootstrap: makes sure the designated administrator account,
//! its password envelope and the three privileged groups exist, and is
//! a no-op on a store that is already set up — running it twice never
//! produces a second administrator or duplicate groups. Also the
//! validation behind the test-mail command.

use vstd::prelude::*;
use vstd::string::StrSliceExecFns;

use crate::auth::ServerKey;
use crate::auth::credential_ok;
use crate::auth::key_wf;
use crate::store::DirectoryStore;
use crate::store::StoreView;
use crate::store::store_wf;
use crate::store::has_user;
use crate::store::has_group_named;
use crate::store::has_group_id;
use crate::store::has_membership;
use crate::store::member_of_named;
use crate::types::CreateUserRequest;
use crate::types::DirectoryError;

verus! {

/// What bootstrap needs from configuration: the administrator's
/// identity, contact email and initial password.
pub struct BootstrapConfig {
    pub admin_user_id: String,
    pub admin_email: String,
    pub admin_password: String,
}

/// The password rule enforced at startup: at least six characters.
pub open spec fn password_long_enough(pw: Seq<char>) -> bool {
    pw.len() >= 6
}

/// A store counts as bootstrapped once the administrator user and the
/// password-manager group exist: exactly the two probes the startup
/// sequence makes.
pub open spec fn bootstrap_ready(s: StoreView, admin_id: Seq<char>) -> bool {
    has_user(s, admin_id) && has_group_named(s, "lldap_password_manager"@)
}

/// What one successful bootstrap run guarantees: it establishes
/// readiness, and on an already-ready store it changes nothing.
pub open spec fn bootstrap_run(pre: StoreView, post: StoreView, admin_id: Seq<char>) -> bool {
    &&& bootstrap_ready(post, admin_id)
    &&& (bootstrap_ready(pre, admin_id) ==> post == pre)
}

/// Running bootstrap twice is the same as running it once: the second
/// run changes nothing, and the unique-identifier invariant rules out
/// a second administrator user or a duplicate group outright.
pub proof fn lemma_bootstrap_idempotent(
    s0: StoreView,
    s1: StoreView,
    s2: StoreView,
    admin_id: Seq<char>,
)
    requires
        store_wf(s1),
        bootstrap_run(s0, s1, admin_id),
        bootstrap_run(s1, s2, admin_id),
    ensures
        s2 == s1,
        forall|i: int, j: int|
            0 <= i < s1.users.len() && 0 <= j < s1.users.len() && (
            #[trigger] s1.users[i]).user_id == admin_id && (#[trigger] s1.users[j]).user_id
                == admin_id ==> i == j,
        forall|i: int, j: int|
            0 <= i < s1.groups.len() && 0 <= j < s1.groups.len() && (
            #[trigger] s1.groups[i]).display_name == (#[trigger] s1.groups[j]).display_name ==> i
                == j,
{
}

/// The login law carried to bootstrap: once a run of
/// `create_admin_user` (or any registration) has left the store
/// holding an envelope for the administrator's password — which its
/// contract states as `credential_ok` — a login attempt succeeds for
/// exactly that password, and any other fails.
pub proof fn lemma_admin_login_exact(
    s: StoreView,
    key: Seq<u64>,
    admin_id: Seq<char>,
    registered: Seq<char>,
    supplied: Seq<char>,
)
    requires
        store_wf(s),
        key_wf(key),
        crate::auth::chars_valid(registered),
        crate::auth::chars_valid(supplied),
        credential_ok(s, key, admin_id, registered),
    ensures
        credential_ok(s, key, admin_id, supplied) <==> (supplied == registered),
{
    crate::auth::lemma_login_exact(s, key, admin_id, registered, supplied);
}

/// Creates the administrator: the user record, its password envelope,
/// the administrative group, and the membership binding them. Mirrors
/// the startup sequence, so a failure of a later step leaves the
/// earlier steps in place, exactly as the store operations describe.
pub fn create_admin_user(
    store: &mut DirectoryStore,
    key: &ServerKey,
    config: &BootstrapConfig,
    now: u64,
) -> (r: Result<(), DirectoryError>)
    requires
        store_wf(old(store)@),
        key_wf(key@),
        password_long_enough(config.admin_password@),
        old(store)@.next_group_id < u64::MAX,
    ensures
        store_wf(final(store)@),
        (r is Ok) == (!has_user(old(store)@, config.admin_user_id@) && !has_group_named(
            old(store)@,
            "lldap_admin"@,
        )),
        has_user(old(store)@, config.admin_user_id@) ==> r is Err && r->Err_0
            == DirectoryError::AlreadyExists && final(store)@ == old(store)@,
        !has_user(old(store)@, config.admin_user_id@) && has_group_named(
            old(store)@,
            "lldap_admin"@,
        ) ==> r is Err && r->Err_0 == DirectoryError::AlreadyExists,
        r is Ok ==> {
            &&& has_user(final(store)@, config.admin_user_id@)
            &&& credential_ok(final(store)@, key@, config.admin_user_id@, config.admin_password@)
            &&& member_of_named(final(store)@, config.admin_user_id@, "lldap_admin"@)
        },
        !has_user(old(store)@, config.admin_user_id@) ==> has_user(
            final(store)@,
            config.admin_user_id@,
        ) && credential_ok(final(store)@, key@, config.admin_user_id@, config.admin_password@),
        r is Ok ==> forall|n: Seq<char>|
            n != "lldap_admin"@ ==> #[trigger] has_group_named(final(store)@, n)
                == has_group_named(old(store)@, n),
        r is Ok ==> final(store)@.next_group_id == old(store)@.next_group_id + 1,
        r is Err ==> final(store)@.groups == old(store)@.groups && final(store)@.memberships
            == old(store)@.memberships && final(store)@.next_group_id
            == old(store)@.next_group_id,
{
    let request = CreateUserRequest {
        user_id: config.admin_user_id.clone(),
        email: config.admin_email.clone(),
        display_name: Option::Some("Administrator".to_owned()),
    };
    match store.create_user(request, now) {
        Result::Ok(()) => {},
        Result::Err(e) => {
            return Result::Err(e);
        },
    }
    proof {
        let mid = store@;
        let n = mid.users.len() - 1;
        assert((#[trigger] mid.users[n]).user_id == config.admin_user_id@);
        assert(has_user(mid, config.admin_user_id@));
    }
    match store.register_password(key, &config.admin_user_id, config.admin_password.as_str()) {
        Result::Ok(()) => {},
        Result::Err(e) => {
            return Result::Err(e);
        },
    }
    let ghost widx = choose|wi: int|
        0 <= wi < store@.users.len() && (#[trigger] store@.users[wi]).user_id
            == config.admin_user_id@ && store@.users[wi].envelope == Option::Some(
            crate::auth::envelope_bytes(key@, config.admin_password@),
        );
    let admin_group: String = "lldap_admin".to_owned();
    let gid = match store.create_group(&admin_group) {
        Result::Ok(gid) => gid,
        Result::Err(e) => {
            return Result::Err(e);
        },
    };
    proof {
        let mid = store@;
        let gn = mid.groups.len() - 1;
        assert((#[trigger] mid.groups[gn]).group_id == gid && mid.groups[gn].display_name
            == "lldap_admin"@);
        assert((#[trigger] mid.users[widx]).user_id == config.admin_user_id@);
        assert(has_user(mid, config.admin_user_id@) && has_group_id(mid, gid));
    }
    match store.add_user_to_group(&config.admin_user_id, gid) {
        Result::Ok(()) => {},
        Result::Err(e) => {
            return Result::Err(e);
        },
    }
    proof {
        let post = store@;
        assert((#[trigger] post.users[widx]).user_id == config.admin_user_id@
            && post.users[widx].envelope == Option::Some(
            crate::auth::envelope_bytes(key@, config.admin_password@),
        ));
        let gn = post.groups.len() - 1;
        assert((#[trigger] post.groups[gn]).group_id == gid && post.groups[gn].display_name
            == "lldap_admin"@);
        assert(has_membership(post, config.admin_user_id@, gid));
        assert(member_of_named(post, config.admin_user_id@, "lldap_admin"@));
        let pre = old(store)@;
        assert(post.groups =~= pre.groups.push(post.groups[gn]));
        crate::store::lemma_push_group_preserves_names(pre, post, post.groups[gn]);
    }
    Result::Ok(())
}

/// The whole startup sequence against the store: create the
/// administrator where the account is missing, and the
/// password-manager and strict-read-only groups where the former is
/// missing. Re-running against an initialized store is a no-op, not an
/// error; success is owed unless a group name a missing step must
/// create is already taken.
pub fn set_up_directory(
    store: &mut DirectoryStore,
    key: &ServerKey,
    config: &BootstrapConfig,
    now: u64,
) -> (r: Result<(), DirectoryError>)
    requires
        store_wf(old(store)@),
        key_wf(key@),
        password_long_enough(config.admin_password@),
        old(store)@.next_group_id <= u64::MAX - 3,
    ensures
        store_wf(final(store)@),
        (r is Ok) == ((has_user(old(store)@, config.admin_user_id@) || !has_group_named(
            old(store)@,
            "lldap_admin"@,
        )) && (has_group_named(old(store)@, "lldap_password_manager"@) || !has_group_named(
            old(store)@,
            "lldap_strict_readonly"@,
        ))),
        r is Err ==> r->Err_0 == DirectoryError::AlreadyExists,
        r is Ok ==> bootstrap_run(old(store)@, final(store)@, config.admin_user_id@),
        bootstrap_ready(old(store)@, config.admin_user_id@) ==> r is Ok && final(store)@ == old(
            store)@,
        r is Ok && !has_group_named(old(store)@, "lldap_password_manager"@) ==> has_group_named(
            final(store)@,
            "lldap_strict_readonly"@,
        ),
        has_user(old(store)@, config.admin_user_id@) ==> final(store)@.users == old(store)@.users
            && final(store)@.memberships == old(store)@.memberships && has_group_named(
            final(store)@,
            "lldap_admin"@,
        ) == has_group_named(old(store)@, "lldap_admin"@),
        has_group_named(old(store)@, "lldap_password_manager"@) ==> has_group_named(
            final(store)@,
            "lldap_password_manager"@,
        ) && has_group_named(final(store)@, "lldap_strict_readonly"@) == has_group_named(
            old(store)@,
            "lldap_strict_readonly"@,
        ),
{
    proof {
        reveal_strlit("lldap_admin");
        reveal_strlit("lldap_password_manager");
        reveal_strlit("lldap_strict_readonly");
        assert("lldap_admin"@.len() == 11);
        assert("lldap_password_manager"@.len() == 22);
        assert("lldap_strict_readonly"@.len() == 21);
        assert("lldap_admin"@ != "lldap_password_manager"@);
        assert("lldap_admin"@ != "lldap_strict_readonly"@);
        assert("lldap_password_manager"@ != "lldap_strict_readonly"@);
    }
    match store.find_user_index(&config.admin_user_id) {
        Option::None => {
            match create_admin_user(store, key, config, now) {
                Result::Ok(()) => {},
                Result::Err(e) => {
                    return Result::Err(e);
                },
            }
        },
        Option::Some(_) => {},
    }
    proof {
        assert(has_user(store@, config.admin_user_id@));
        assert(has_group_named(store@, "lldap_password_manager"@) == has_group_named(
            old(store)@,
            "lldap_password_manager"@,
        ));
        assert(has_group_named(store@, "lldap_strict_readonly"@) == has_group_named(
            old(store)@,
            "lldap_strict_readonly"@,
        ));
        assert(has_user(old(store)@, config.admin_user_id@) ==> store@.users == old(store)@.users
            && store@.memberships == old(store)@.memberships && has_group_named(
            store@,
            "lldap_admin"@,
        ) == has_group_named(old(store)@, "lldap_admin"@));
        assert(store@.next_group_id <= old(store)@.next_group_id + 1);
    }
    let ghost u_idx = choose|wi: int|
        0 <= wi < store@.users.len() && (#[trigger] store@.users[wi]).user_id
            == config.admin_user_id@;
    let ghost after_admin = store@;
    let pm_group: String = "lldap_password_manager".to_owned();
    match store.find_group_index_by_name(&pm_group) {
        Option::None => {
            proof {
                assert(!has_group_named(store@, "lldap_password_manager"@));
                assert(store@.next_group_id < u64::MAX);
            }
            match store.create_group(&pm_group) {
                Result::Ok(_) => {},
                Result::Err(e) => {
                    return Result::Err(e);
                },
            }
            proof {
                let mid = store@;
                let gn = mid.groups.len() - 1;
                assert((#[trigger] mid.groups[gn]).display_name == "lldap_password_manager"@);
                assert(mid.groups == after_admin.groups.push(mid.groups[gn]));
                crate::store::lemma_push_group_preserves_names(after_admin, mid, mid.groups[gn]);
                assert(has_group_named(mid, "lldap_password_manager"@));
                assert(has_group_named(mid, "lldap_strict_readonly"@) == has_group_named(
                    after_admin,
                    "lldap_strict_readonly"@,
                ));
                assert(has_group_named(mid, "lldap_admin"@) == has_group_named(
                    after_admin,
                    "lldap_admin"@,
                ));
                assert(mid.users == after_admin.users && mid.memberships
                    == after_admin.memberships);
                assert(mid.next_group_id < u64::MAX);
            }
            let ghost pm_idx = choose|gi: int|
                0 <= gi < store@.groups.len() && (#[trigger] store@.groups[gi]).display_name
                    == "lldap_password_manager"@;
            let ghost after_pm = store@;
            let ro_group: String = "lldap_strict_readonly".to_owned();
            match store.create_group(&ro_group) {
                Result::Ok(_) => {},
                Result::Err(e) => {
                    return Result::Err(e);
                },
            }
            proof {
                let post = store@;
                let gn = post.groups.len() - 1;
                assert((#[trigger] post.groups[gn]).display_name == "lldap_strict_readonly"@);
                assert(post.groups == after_pm.groups.push(post.groups[gn]));
                crate::store::lemma_push_group_preserves_names(after_pm, post, post.groups[gn]);
                assert((#[trigger] post.groups[pm_idx]).display_name
                    == "lldap_password_manager"@);
                assert((#[trigger] post.users[u_idx]).user_id == config.admin_user_id@);
                assert(post.users == after_pm.users && post.memberships
                    == after_pm.memberships);
            }
        },
        Option::Some(pmi) => {
            proof {
                let post = store@;
                assert((#[trigger] post.groups[pmi as int]).display_name
                    == "lldap_password_manager"@);
                assert((#[trigger] post.users[u_idx]).user_id == config.admin_user_id@);
            }
        },
    }
    Result::Ok(())
}

/// A mail request the engine hands to whatever delivers mail: a
/// checked recipient and the fixed test message.
#[derive(Debug)]
pub struct MailRequest {
    pub to: String,
    pub subject: String,
    pub body: String,
}

/// A deliverable address for our purposes: an `@` with at least one
/// character on each side.
pub open spec fn valid_email(s: Seq<char>) -> bool {
    exists|i: int| 0 < i < s.len() - 1 && s[i] == '@'
}

/// The test-mail command: checks the recipient address and assembles
/// the test message for the mail transport to send; a malformed
/// address fails `ValidationError`.
#[verifier::loop_isolation(false)]
pub fn send_test_email_command(to: &String) -> (r: Result<MailRequest, DirectoryError>)
    ensures
        (r is Ok) == valid_email(to@),
        r is Err ==> r->Err_0 == DirectoryError::ValidationError,
        r matches Ok(m) ==> m.to@ == to@ && m.subject@ == "Test email"@ && m.body@
            == "The mail settings work."@,
{
    let s = to.as_str();
    let n = s.unicode_len();
    let mut found: bool = false;
    let mut i: usize = 0;
    while i < n
        invariant
            i <= n,
            n == to@.len(),
            found == exists|j: int| 0 < j < i && j < n - 1 && to@[j] == '@',
        decreases n - i,
    {
        let c = s.get_char(i);
        if c == '@' && i > 0 && i + 1 < n {
            found = true;
        }
        i = i + 1;
    }
    if !found {
        return Result::Err(DirectoryError::ValidationError);
    }
    Result::Ok(
        MailRequest {
            to: to.clone(),
            subject: "Test email".to_owned(),
            body: "The mail settings work.".to_owned(),
        },
    )
}

} // verus!
