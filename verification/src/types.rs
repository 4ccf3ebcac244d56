//! Core data model of the directory: users, groups, memberships, the
//! error taxonomy shared by every operation of the engine, and the
//! mathematical views the contracts are stated over.

use vstd::prelude::*;

verus! {

/// Every failure an engine operation can report.
#[derive(Clone, Copy, Debug, PartialEq, Eq, Structural)]
pub enum DirectoryError {
    /// The named user or group does not exist.
    NotFound,
    /// A user identifier or group name is already taken.
    AlreadyExists,
    /// The supplied credential is wrong, or the identity is unknown
    /// (deliberately indistinguishable, to prevent account enumeration).
    AuthenticationFailed,
    /// The bound identity may not perform the requested operation.
    AuthorizationDenied,
    /// A malformed filter, identifier or attribute was supplied.
    ValidationError,
    /// The store could not complete the operation (e.g. exhausted
    /// identifier space, standing in for transaction failure).
    StorageError,
    /// A session token is expired, revoked or otherwise invalid.
    TokenError,
}

/// The mathematical value of one extra user attribute.
#[verifier::ext_equal]
pub ghost struct AttributeView {
    pub name: Seq<char>,
    pub value: Seq<char>,
}

/// One extra attribute of a user: a named value, names unique per user.
#[derive(Debug)]
pub struct Attribute {
    pub name: String,
    pub value: String,
}

impl View for Attribute {
    type V = AttributeView;

    open spec fn view(&self) -> AttributeView {
        AttributeView { name: self.name@, value: self.value@ }
    }
}

impl Clone for Attribute {
    fn clone(&self) -> (r: Self)
        ensures
            r@ == self@,
    {
        Attribute { name: self.name.clone(), value: self.value.clone() }
    }
}

/// A password envelope: the only password-derived material the store
/// ever holds. Produced by registration, consumed by login; its
/// contents are meaningful only to the authentication module, which
/// models the cryptographic derivation — what is verified is the
/// functional behaviour (the envelope accepts exactly the password it
/// was registered for), not any secrecy property.
#[derive(Debug)]
pub struct Envelope {
    pub data: Vec<u64>,
}

impl View for Envelope {
    type V = Seq<u64>;

    open spec fn view(&self) -> Seq<u64> {
        self.data@
    }
}

impl Clone for Envelope {
    fn clone(&self) -> (r: Self)
        ensures
            r@ == self@,
    {
        let mut data: Vec<u64> = Vec::new();
        let mut i: usize = 0;
        while i < self.data.len()
            invariant
                i <= self.data.len(),
                data@ =~= self.data@.subrange(0, i as int),
            decreases self.data.len() - i,
        {
            data.push(self.data[i]);
            i = i + 1;
        }
        proof {
            assert(data@ =~= self.data@);
        }
        Envelope { data }
    }
}

/// The mathematical value of a user entry.
#[verifier::ext_equal]
pub ghost struct UserView {
    pub user_id: Seq<char>,
    pub email: Seq<char>,
    pub display_name: Option<Seq<char>>,
    pub attributes: Seq<AttributeView>,
    pub envelope: Option<Seq<u64>>,
    pub creation_time: u64,
}

/// A directory user. The identifier is directory-unique and immutable
/// after creation; everything else can change through `update_user`.
#[derive(Debug)]
pub struct User {
    pub user_id: String,
    pub email: String,
    pub display_name: Option<String>,
    pub attributes: Vec<Attribute>,
    pub envelope: Option<Envelope>,
    pub creation_time: u64,
}

impl View for User {
    type V = UserView;

    open spec fn view(&self) -> UserView {
        UserView {
            user_id: self.user_id@,
            email: self.email@,
            display_name: match self.display_name {
                Option::Some(d) => Option::Some(d@),
                Option::None => Option::None,
            },
            attributes: Seq::new(
                self.attributes@.len(),
                |i: int| self.attributes@[i]@,
            ),
            envelope: match self.envelope {
                Option::Some(e) => Option::Some(e@),
                Option::None => Option::None,
            },
            creation_time: self.creation_time,
        }
    }
}

impl Clone for User {
    fn clone(&self) -> (r: Self)
        ensures
            r@ == self@,
    {
        let display_name = match &self.display_name {
            Option::None => Option::None,
            Option::Some(d) => Option::Some(d.clone()),
        };
        let envelope = match &self.envelope {
            Option::None => Option::None,
            Option::Some(e) => Option::Some(e.clone()),
        };
        let mut attributes: Vec<Attribute> = Vec::new();
        let mut i: usize = 0;
        while i < self.attributes.len()
            invariant
                i <= self.attributes.len(),
                attributes@.len() == i,
                forall|j: int| 0 <= j < i ==> attributes@[j]@ == #[trigger] self.attributes@[j]@,
            decreases self.attributes.len() - i,
        {
            attributes.push(self.attributes[i].clone());
            i = i + 1;
        }
        let r = User {
            user_id: self.user_id.clone(),
            email: self.email.clone(),
            display_name,
            attributes,
            envelope,
            creation_time: self.creation_time,
        };
        proof {
            assert(r@.attributes =~= self@.attributes);
            assert(r@ =~= self@);
        }
        r
    }
}

/// The mathematical value of a group entry.
#[verifier::ext_equal]
pub ghost struct GroupView {
    pub group_id: u64,
    pub display_name: Seq<char>,
}

/// A directory group: a numeric identifier assigned at creation and a
/// unique display name.
#[derive(Debug)]
pub struct Group {
    pub group_id: u64,
    pub display_name: String,
}

impl View for Group {
    type V = GroupView;

    open spec fn view(&self) -> GroupView {
        GroupView { group_id: self.group_id, display_name: self.display_name@ }
    }
}

impl Clone for Group {
    fn clone(&self) -> (r: Self)
        ensures
            r@ == self@,
    {
        Group { group_id: self.group_id, display_name: self.display_name.clone() }
    }
}

/// The mathematical value of one membership edge.
#[verifier::ext_equal]
pub ghost struct MembershipView {
    pub user_id: Seq<char>,
    pub group_id: u64,
}

/// One membership edge of the many-to-many user/group relation. Both
/// endpoints must reference existing entities.
#[derive(Debug)]
pub struct Membership {
    pub user_id: String,
    pub group_id: u64,
}

impl View for Membership {
    type V = MembershipView;

    open spec fn view(&self) -> MembershipView {
        MembershipView { user_id: self.user_id@, group_id: self.group_id }
    }
}

impl Clone for Membership {
    fn clone(&self) -> (r: Self)
        ensures
            r@ == self@,
    {
        Membership { user_id: self.user_id.clone(), group_id: self.group_id }
    }
}

/// The mathematical value of one refresh-token record.
#[verifier::ext_equal]
pub ghost struct RefreshRecordView {
    pub token_hash: u64,
    pub user_id: Seq<char>,
    pub expiry: u64,
}

/// One persisted refresh-token record: created at login, consulted and
/// rotated at refresh, removed at revocation or by the cleanup pass.
#[derive(Debug)]
pub struct RefreshRecord {
    pub token_hash: u64,
    pub user_id: String,
    pub expiry: u64,
}

impl View for RefreshRecord {
    type V = RefreshRecordView;

    open spec fn view(&self) -> RefreshRecordView {
        RefreshRecordView {
            token_hash: self.token_hash,
            user_id: self.user_id@,
            expiry: self.expiry,
        }
    }
}

impl Clone for RefreshRecord {
    fn clone(&self) -> (r: Self)
        ensures
            r@ == self@,
    {
        RefreshRecord {
            token_hash: self.token_hash,
            user_id: self.user_id.clone(),
            expiry: self.expiry,
        }
    }
}

/// What `create_user` needs: the new identifier, contact email, and an
/// optional display name. Attributes start empty and the password
/// envelope absent.
pub struct CreateUserRequest {
    pub user_id: String,
    pub email: String,
    pub display_name: Option<String>,
}

/// One requested change to a user's extra attributes: set a value under a
/// name, or remove the name explicitly (removal is never implied by
/// omission).
pub enum AttributeUpdate {
    Assign(String, String),
    Unset(String),
}

/// A partial update of a user: absent fields are left untouched.
pub struct UserPatch {
    pub email: Option<String>,
    pub display_name: Option<String>,
    pub attribute_updates: Vec<AttributeUpdate>,
}

} // verus!
