//! The parsers of nom that the rules are built from.
//!
//! Nothing in this file is proved: each function makes one call into nom,
//! and its contract says what that call does.

use crate::grammar::{alphanumerics, letters, span, trim_start};
use vstd::prelude::*;

verus! {

/// The error of nom's parsers, carried through unread.
#[verifier::external_type_specification]
#[verifier::external_body]
#[verifier::reject_recursive_types(E)]
pub struct ExNomErr<E>(nom::Err<E>);

/// `nom::bytes::complete::tag`: succeeds exactly where `input` begins with
/// `token`, and then returns the text after the token and the token as it
/// stands in `input`.
#[verifier::external_body]
pub(crate) fn tag<'a>(token: &str, input: &'a str) -> (r: Result<(&'a str, &'a str), nom::Err<()>>)
    ensures
        r is Ok <==> token@.is_prefix_of(input@),
        r is Ok ==> r->Ok_0.0@ == input@.skip(token@.len() as int) && r->Ok_0.1@ == token@,
{
    nom::bytes::complete::tag(token)(input)
}

/// `nom::multi::many0` over `nom::character::complete::one_of`: takes
/// characters off the front of `input` for as long as they occur in `set`.
/// It never fails; what is left begins at the first character that does
/// not occur in `set`, and the characters taken are returned in order.
#[verifier::external_body]
pub(crate) fn many0_one_of<'a>(set: &str, input: &'a str) -> (r: Result<
    (&'a str, Vec<char>),
    nom::Err<()>,
>)
    ensures
        r is Ok,
        r->Ok_0.0@ == trim_start(input@, set@.to_set()),
        r->Ok_0.1@ == input@.take(span(input@, set@.to_set()) as int),
{
    nom::multi::many0(nom::character::complete::one_of(set))(input)
}

/// `nom::character::complete::alpha1`: splits `input` before its first
/// character that is not an ASCII letter, and fails where that leaves
/// nothing in front. Returns the text from that character on and the
/// letters before it.
#[verifier::external_body]
pub(crate) fn alpha1<'a>(input: &'a str) -> (r: Result<(&'a str, &'a str), nom::Err<()>>)
    ensures
        r is Ok <==> span(input@, letters()) > 0,
        r is Ok ==> r->Ok_0.0@ == trim_start(input@, letters()) && r->Ok_0.1@ == input@.take(
            span(input@, letters()) as int,
        ),
{
    nom::character::complete::alpha1(input)
}

/// `nom::character::complete::alphanumeric0`: splits `input` before its
/// first character that is neither an ASCII letter nor a decimal digit. It
/// never fails; the part in front may be empty.
#[verifier::external_body]
pub(crate) fn alphanumeric0<'a>(input: &'a str) -> (r: Result<(&'a str, &'a str), nom::Err<()>>)
    ensures
        r is Ok,
        r->Ok_0.0@ == trim_start(input@, alphanumerics()),
        r->Ok_0.1@ == input@.take(span(input@, alphanumerics()) as int),
{
    nom::character::complete::alphanumeric0(input)
}

} // verus!
