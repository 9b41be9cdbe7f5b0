//! The grammar, stated over sequences of characters.
//!
//! Each rule is a function from the text to what the rule gives and the
//! text that it leaves.

use crate::ast::{FieldView, ParseError, TypeDefView};
use vstd::prelude::*;

verus! {

/// The ASCII letters.
pub open spec fn letters() -> Set<char> {
    Set::new(|c: char| ('a' <= c && c <= 'z') || ('A' <= c && c <= 'Z'))
}

/// The ASCII letters and decimal digits.
pub open spec fn alphanumerics() -> Set<char> {
    Set::new(|c: char| letters().contains(c) || ('0' <= c && c <= '9'))
}

/// The characters that may begin an identifier: a letter or `_`.
pub open spec fn ident_start() -> Set<char> {
    letters().insert('_')
}

/// The characters that may continue an identifier: a letter, a digit or `_`.
pub open spec fn ident_part() -> Set<char> {
    alphanumerics().insert('_')
}

/// Blanks within a line: space and tab.
pub open spec fn blanks() -> Set<char> {
    set![' ', '\t']
}

/// Blanks and line ends: space, tab, newline and carriage return.
pub open spec fn whitespace() -> Set<char> {
    set![' ', '\t', '\n', '\r']
}

/// The length of the longest prefix of `s` whose characters all lie in
/// `class`.
pub open spec fn span(s: Seq<char>, class: Set<char>) -> nat
    decreases s.len(),
{
    if s.len() > 0 && class.contains(s[0]) {
        1 + span(s.skip(1), class)
    } else {
        0
    }
}

/// `s` without its longest prefix of characters of `class`.
pub open spec fn trim_start(s: Seq<char>, class: Set<char>) -> Seq<char> {
    s.skip(span(s, class) as int)
}

/// Whether `s` begins with the character `c`.
pub open spec fn starts_with(s: Seq<char>, c: char) -> bool {
    s.len() > 0 && s[0] == c
}

/// Whether `s` begins with a character of `class`.
pub open spec fn starts_with_any(s: Seq<char>, class: Set<char>) -> bool {
    s.len() > 0 && class.contains(s[0])
}

/// A name token: a letter or `_`, then letters, digits and `_`.
pub open spec fn is_identifier(s: Seq<char>) -> bool {
    &&& s.len() > 0
    &&& ident_start().contains(s[0])
    &&& forall|i: int| 0 <= i < s.len() ==> ident_part().contains(#[trigger] s[i])
}

/// The identifier rule: blanks, the longest name token, blanks. Gives the
/// token and the text that is left, or `None` where the text does not
/// begin, after blanks, with a letter or `_`.
pub open spec fn ident_of(s: Seq<char>) -> Option<(Seq<char>, Seq<char>)> {
    let t = trim_start(s, blanks());
    if t.len() > 0 && ident_start().contains(t[0]) {
        let n = span(t, ident_part()) as int;
        Some((t.take(n), trim_start(t.skip(n), blanks())))
    } else {
        None
    }
}

/// The type annotation of a field: `:` and an identifier.
pub open spec fn typed_of(s: Seq<char>) -> Option<(Seq<char>, Seq<char>)> {
    if starts_with(s, ':') {
        ident_of(s.skip(1))
    } else {
        None
    }
}

/// The field rule: an identifier and, where a `:` and a second identifier
/// follow it, that identifier as the type. A `:` that no identifier
/// follows is not taken: the field is then untyped and the text that is
/// left begins with the `:`. `None` only where the first identifier is
/// missing.
pub open spec fn field_of(s: Seq<char>) -> Option<(FieldView, Seq<char>)> {
    match ident_of(s) {
        None => None,
        Some((name, rest)) => match typed_of(rest) {
            Some((typ, after)) => Some((FieldView { name, typ: Some(typ) }, after)),
            None => Some((FieldView { name, typ: None }, rest)),
        },
    }
}

/// The list rule over an element rule `elem`: elements with a `,` between
/// them, whitespace around each, and the `,` after the last one optional.
/// The list ends, without failing, where `elem` does not match or no `,`
/// follows an element. Gives the elements in order and the text that is
/// left, which begins with no whitespace.
///
/// An element rule is expected to leave no more text than it was given;
/// where `elem` leaves more, the list ends there as well.
pub open spec fn list_of<A>(
    elem: spec_fn(Seq<char>) -> Option<(A, Seq<char>)>,
    s: Seq<char>,
) -> (Seq<A>, Seq<char>)
    decreases s.len(),
{
    let t = trim_start(s, whitespace());
    match elem(t) {
        None => (Seq::empty(), t),
        Some((v, r)) => {
            let u = trim_start(r, whitespace());
            if starts_with(u, ',') && u.len() <= s.len() {
                let (vs, rest) = list_of(elem, u.skip(1));
                (seq![v] + vs, rest)
            } else {
                (seq![v], u)
            }
        },
    }
}

/// The list of fields between the braces of a type definition.
pub open spec fn field_list_of(s: Seq<char>) -> (Seq<FieldView>, Seq<char>) {
    list_of(|t: Seq<char>| field_of(t), s)
}

/// The keyword that opens a type definition.
pub open spec fn keyword() -> Seq<char> {
    seq!['t', 'y', 'p', 'e']
}

/// The top-level rule: the keyword, the name, `{`, the fields, `}`, and the
/// whitespace after it. The error names the first of these that is
/// missing.
pub open spec fn type_def_of(s: Seq<char>) -> Result<(TypeDefView, Seq<char>), ParseError> {
    if !keyword().is_prefix_of(s) {
        Err(ParseError::Keyword)
    } else {
        match ident_of(s.skip(keyword().len() as int)) {
            None => Err(ParseError::Identifier),
            Some((name, body)) => if !starts_with(body, '{') {
                Err(ParseError::OpenBrace)
            } else {
                let (fields, end) = field_list_of(body.skip(1));
                if !starts_with(end, '}') {
                    Err(ParseError::CloseBrace)
                } else {
                    Ok((TypeDefView { name, fields }, trim_start(end.skip(1), whitespace())))
                }
            },
        }
    }
}

} // verus!
