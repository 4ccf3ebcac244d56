//! The recursive filter language of the directory: equality predicates on
//! entry attributes, combined with AND, OR and NOT. A filter is first
//! validated (unknown attribute names are a `ValidationError`, never a
//! silent non-match) and then evaluated against users under standard
//! boolean-algebra semantics: an empty AND matches everything, an empty
//! OR matches nothing, and double negation changes nothing.

use vstd::prelude::*;

use crate::types::User;
use crate::types::UserView;

verus! {

/// A filter expression over user entries.
pub enum Filter {
    /// `Equality(name, value)`: the attribute called `name` has exactly
    /// the value `value`.
    Equality(String, String),
    /// Every sub-filter matches (vacuously true when empty).
    And(Vec<Filter>),
    /// At least one sub-filter matches (vacuously false when empty).
    Or(Vec<Filter>),
    /// The sub-filter does not match.
    Not(Box<Filter>),
}

/// The attribute names a filter may test: the three fixed user fields.
pub open spec fn known_attribute(name: Seq<char>) -> bool {
    ||| name == "user_id"@
    ||| name == "email"@
    ||| name == "display_name"@
}

/// A filter is valid when every equality predicate in it tests a known
/// attribute name.
pub open spec fn filter_valid(f: Filter) -> bool
    decreases f,
{
    match f {
        Filter::Equality(name, _value) => known_attribute(name@),
        Filter::And(fs) => forall|i: int|
            0 <= i < fs@.len() ==> filter_valid(#[trigger] fs@[i]),
        Filter::Or(fs) => forall|i: int|
            0 <= i < fs@.len() ==> filter_valid(#[trigger] fs@[i]),
        Filter::Not(g) => filter_valid(*g),
    }
}

/// Whether one equality predicate holds of a user. A missing display
/// name matches no value.
pub open spec fn attribute_matches(u: UserView, name: Seq<char>, value: Seq<char>) -> bool {
    if name == "user_id"@ {
        u.user_id == value
    } else if name == "email"@ {
        u.email == value
    } else if name == "display_name"@ {
        match u.display_name {
            Option::Some(d) => d == value,
            Option::None => false,
        }
    } else {
        false
    }
}

/// The meaning of a filter on one user: standard boolean algebra over
/// the attribute predicates.
pub open spec fn user_matches(f: Filter, u: UserView) -> bool
    decreases f,
{
    match f {
        Filter::Equality(name, value) => attribute_matches(u, name@, value@),
        Filter::And(fs) => forall|i: int|
            0 <= i < fs@.len() ==> user_matches(#[trigger] fs@[i], u),
        Filter::Or(fs) => exists|i: int|
            0 <= i < fs@.len() && user_matches(#[trigger] fs@[i], u),
        Filter::Not(g) => !user_matches(*g, u),
    }
}

/// Checks that a string is one of the known attribute names.
fn is_known_attribute(name: &String) -> (r: bool)
    ensures
        r == known_attribute(name@),
{
    let known: bool = name.eq(&"user_id".to_owned()) || name.eq(&"email".to_owned())
        || name.eq(&"display_name".to_owned());
    known
}

/// Validates a filter: true exactly when every equality predicate in it
/// names a known attribute.
#[verifier::loop_isolation(false)]
pub fn validate_filter(f: &Filter) -> (r: bool)
    ensures
        r == filter_valid(*f),
    decreases *f,
{
    match f {
        Filter::Equality(name, _value) => is_known_attribute(name),
        Filter::And(fs) => {
            let mut i: usize = 0;
            let mut ok: bool = true;
            while i < fs.len()
                invariant
                    i <= fs.len(),
                    ok == forall|j: int| 0 <= j < i ==> filter_valid(#[trigger] fs@[j]),
                decreases fs.len() - i,
            {
                let sub = validate_filter(&fs[i]);
                ok = ok && sub;
                i = i + 1;
            }
            ok
        },
        Filter::Or(fs) => {
            let mut i: usize = 0;
            let mut ok: bool = true;
            while i < fs.len()
                invariant
                    i <= fs.len(),
                    ok == forall|j: int| 0 <= j < i ==> filter_valid(#[trigger] fs@[j]),
                decreases fs.len() - i,
            {
                let sub = validate_filter(&fs[i]);
                ok = ok && sub;
                i = i + 1;
            }
            ok
        },
        Filter::Not(g) => validate_filter(g),
    }
}

/// Checks one equality predicate against a user.
fn eval_equality(u: &User, name: &String, value: &String) -> (r: bool)
    ensures
        r == attribute_matches(u@, name@, value@),
{
    if name.eq(&"user_id".to_owned()) {
        u.user_id.eq(value)
    } else if name.eq(&"email".to_owned()) {
        u.email.eq(value)
    } else if name.eq(&"display_name".to_owned()) {
        match &u.display_name {
            Option::Some(d) => d.eq(value),
            Option::None => false,
        }
    } else {
        false
    }
}

/// Evaluates a filter against one user, following `user_matches`.
#[verifier::loop_isolation(false)]
pub fn eval_filter(f: &Filter, u: &User) -> (r: bool)
    ensures
        r == user_matches(*f, u@),
    decreases *f,
{
    match f {
        Filter::Equality(name, value) => eval_equality(u, name, value),
        Filter::And(fs) => {
            let mut i: usize = 0;
            let mut ok: bool = true;
            while i < fs.len()
                invariant
                    i <= fs.len(),
                    ok == forall|j: int| 0 <= j < i ==> user_matches(#[trigger] fs@[j], u@),
                decreases fs.len() - i,
            {
                let sub = eval_filter(&fs[i], u);
                ok = ok && sub;
                i = i + 1;
            }
            ok
        },
        Filter::Or(fs) => {
            let mut i: usize = 0;
            let mut any: bool = false;
            while i < fs.len()
                invariant
                    i <= fs.len(),
                    any == exists|j: int| 0 <= j < i && user_matches(#[trigger] fs@[j], u@),
                decreases fs.len() - i,
            {
                let sub = eval_filter(&fs[i], u);
                any = any || sub;
                i = i + 1;
            }
            any
        },
        Filter::Not(g) => {
            let inner = eval_filter(g, u);
            !inner
        },
    }
}

/// An empty AND matches every entry.
pub proof fn lemma_and_empty_matches_all(fs: Vec<Filter>, u: UserView)
    requires
        fs@.len() == 0,
    ensures
        user_matches(Filter::And(fs), u),
{
}

/// An empty OR matches no entry.
pub proof fn lemma_or_empty_matches_none(fs: Vec<Filter>, u: UserView)
    requires
        fs@.len() == 0,
    ensures
        !user_matches(Filter::Or(fs), u),
{
}

/// Double negation changes nothing: `NOT(NOT(f))` matches exactly the
/// entries `f` matches.
pub proof fn lemma_not_involutive(f: Box<Filter>, nf: Box<Filter>, u: UserView)
    requires
        *nf == Filter::Not(f),
    ensures
        user_matches(Filter::Not(nf), u) == user_matches(*f, u),
{
    assert(user_matches(Filter::Not(nf), u) == !user_matches(*nf, u));
    assert(user_matches(Filter::Not(f), u) == !user_matches(*f, u));
}

} // verus!
