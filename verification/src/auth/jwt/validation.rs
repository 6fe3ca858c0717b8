//! Checks on the claims of a token.
use vstd::prelude::*;

use crate::blueprint::auth::JwtProvider;
use crate::text;
use crate::text::views;

verus! {

/// The audience that a token is meant for: one, or a list.
#[derive(Debug, PartialEq, Eq)]
pub enum OneOrMany {
    One(String),
    Vec(Vec<String>),
}

/// The claims of a token that are checked.
#[derive(Debug, PartialEq, Eq)]
pub struct Claims {
    /// The issuer.
    pub iss: Option<String>,
    /// The audience.
    pub aud: OneOrMany,
}

impl Default for Claims {
    /// No issuer and no audience.
    fn default() -> (res: Claims)
        ensures
            res.iss is None,
            res.aud matches OneOrMany::Vec(auds) && auds@.len() == 0,
    {
        Claims { iss: None, aud: OneOrMany::Vec(Vec::new()) }
    }
}

/// Whether a token with the issuer `iss` is accepted where `issuer` is called for.
pub open spec fn issuer_accepted(issuer: Option<String>, iss: Option<String>) -> bool {
    match issuer {
        None => true,
        Some(expected) => match iss {
            Some(actual) => actual@ == expected@,
            None => false,
        },
    }
}

/// Whether one of the strings is among the audiences.
pub open spec fn any_among(audiences: Seq<String>, auds: Seq<String>) -> bool {
    exists|i: int| 0 <= i < auds.len() && views(audiences).contains((#[trigger] auds[i])@)
}

/// Whether one of the audiences of a token is among those accepted; where none are given, any is.
pub open spec fn audience_accepted(audiences: Seq<String>, aud: OneOrMany) -> bool {
    audiences.len() == 0 || match aud {
        OneOrMany::One(a) => views(audiences).contains(a@),
        OneOrMany::Vec(auds) => any_among(audiences, auds@),
    }
}

/// Whether the token comes from the issuer called for.
pub fn validate_iss(options: &JwtProvider, claims: &Claims) -> (res: bool)
    ensures
        res == issuer_accepted(options.issuer, claims.iss),
{
    match &options.issuer {
        None => true,
        Some(issuer) => match &claims.iss {
            Some(iss) => text::same(iss.as_str(), issuer.as_str()),
            None => false,
        },
    }
}

/// Whether a string is in a list.
fn is_among(strings: &Vec<String>, s: &str) -> (res: bool)
    ensures
        res == views(strings@).contains(s@),
{
    for i in 0..strings.len()
        invariant
            forall|k: int| 0 <= k < i ==> (#[trigger] strings@[k])@ != s@,
    {
        if text::same(strings[i].as_str(), s) {
            proof {
                assert(views(strings@)[i as int] == s@);
            }
            return true;
        }
    }
    proof {
        assert forall|k: int| 0 <= k < views(strings@).len() implies views(strings@)[k] != s@ by {
            assert(views(strings@)[k] == strings@[k]@);
        }
    }
    false
}

/// Whether the token is meant for one of the audiences called for.
pub fn validate_aud(options: &JwtProvider, claims: &Claims) -> (res: bool)
    ensures
        res == audience_accepted(options.audiences@, claims.aud),
{
    let audiences = &options.audiences;
    if audiences.len() == 0 {
        return true;
    }
    match &claims.aud {
        OneOrMany::One(aud) => is_among(audiences, aud.as_str()),
        OneOrMany::Vec(auds) => {
            for i in 0..auds.len()
                invariant
                    audiences == &options.audiences,
                    audiences@.len() > 0,
                    claims.aud == OneOrMany::Vec(*auds),
                    forall|k: int|
                        0 <= k < i ==> !views(audiences@).contains((#[trigger] auds@[k])@),
            {
                if is_among(audiences, auds[i].as_str()) {
                    proof {
                        assert(views(audiences@).contains(auds@[i as int]@));
                    }
                    return true;
                }
            }
            false
        },
    }
}

/// A token for one audience is accepted exactly where one with that audience as its whole list is.
pub proof fn law_one_audience_is_a_list_of_one(audiences: Seq<String>, aud: String, list: Vec<String>)
    requires
        list@ == seq![aud],
    ensures
        audience_accepted(audiences, OneOrMany::One(aud)) == audience_accepted(
            audiences,
            OneOrMany::Vec(list),
        ),
{
    let auds = list@;
    assert(auds[0] == aud);
    assert(any_among(audiences, auds) == views(audiences).contains(auds[0]@));
}

/// A token that is accepted stays so when it is meant for more audiences.
pub proof fn law_more_audiences_keep_acceptance(
    audiences: Seq<String>,
    fewer: Vec<String>,
    more: Vec<String>,
)
    requires
        forall|i: int| 0 <= i < fewer@.len() ==> more@.contains(#[trigger] fewer@[i]),
        audience_accepted(audiences, OneOrMany::Vec(fewer)),
    ensures
        audience_accepted(audiences, OneOrMany::Vec(more)),
{
    if audiences.len() > 0 {
        let few = fewer@;
        let many = more@;
        let i = choose|i: int| 0 <= i < few.len() && views(audiences).contains((#[trigger] few[i])@);
        assert(many.contains(few[i]));
        let k = choose|k: int| 0 <= k < many.len() && many[k] == few[i];
        assert(views(audiences).contains(many[k]@));
    }
}

/// Where an issuer is called for, a token is accepted exactly where it names that issuer; where none
/// is, every token is.
pub proof fn law_issuer_must_be_the_one_called_for(expected: String, actual: String, iss: Option<String>)
    ensures
        issuer_accepted(None, iss),
        issuer_accepted(Some(expected), Some(actual)) <==> expected@ == actual@,
        !issuer_accepted(Some(expected), None),
{
}

/// Where audiences are called for, a token is accepted exactly where one that it is meant for is among
/// them; where none are, every token is.
pub proof fn law_audience_must_be_among_those_called_for(
    audiences: Seq<String>,
    one: String,
    list: Vec<String>,
    aud: OneOrMany,
)
    ensures
        audiences.len() == 0 ==> audience_accepted(audiences, aud),
        audiences.len() > 0 ==> (audience_accepted(audiences, OneOrMany::One(one)) <==> exists|i: int|
            0 <= i < audiences.len() && (#[trigger] audiences[i])@ == one@),
        audiences.len() > 0 ==> (audience_accepted(audiences, OneOrMany::Vec(list)) <==> exists|
            i: int,
            k: int,
        |
            0 <= i < audiences.len() && 0 <= k < list@.len() && (#[trigger] audiences[i])@ == (
            #[trigger] list@[k])@),
{
    lemma_among(audiences, one@);
    if audiences.len() > 0 {
        let auds = list@;
        if any_among(audiences, auds) {
            let k = choose|k: int| 0 <= k < auds.len() && views(audiences).contains((#[trigger] auds[k])@);
            lemma_among(audiences, auds[k]@);
            let i = choose|i: int| 0 <= i < audiences.len() && (#[trigger] audiences[i])@ == auds[k]@;
            assert(audiences[i]@ == list@[k]@);
        }
        if exists|i: int, k: int|
            0 <= i < audiences.len() && 0 <= k < list@.len() && (#[trigger] audiences[i])@ == (
            #[trigger] list@[k])@ {
            let (i, k) = choose|i: int, k: int|
                0 <= i < audiences.len() && 0 <= k < list@.len() && (#[trigger] audiences[i])@ == (
                #[trigger] list@[k])@;
            lemma_among(audiences, auds[k]@);
            assert(views(audiences).contains(auds[k]@));
        }
    }
}

proof fn lemma_among(strings: Seq<String>, s: Seq<char>)
    ensures
        views(strings).contains(s) <==> exists|i: int|
            0 <= i < strings.len() && (#[trigger] strings[i])@ == s,
{
    if views(strings).contains(s) {
        let i = choose|i: int| 0 <= i < views(strings).len() && views(strings)[i] == s;
        assert(strings[i]@ == s);
    }
    if exists|i: int| 0 <= i < strings.len() && (#[trigger] strings[i])@ == s {
        let i = choose|i: int| 0 <= i < strings.len() && (#[trigger] strings[i])@ == s;
        assert(views(strings)[i] == s);
    }
}

} // verus!
