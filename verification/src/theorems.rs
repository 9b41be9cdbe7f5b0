//! What holds of the grammar on every text.

use crate::ast::{ParseError, TypeDefView};
use crate::grammar::{
    blanks, ident_of, ident_part, is_identifier, keyword, span, starts_with_any, trim_start,
    type_def_of, whitespace,
};
use crate::lemmas::{lemma_span, lemma_span_is, lemma_trim_start, lemma_type_def_of};
use vstd::prelude::*;

verus! {

/// A blank in front of a text is skipped together with the blanks that the
/// text itself begins with.
pub proof fn lemma_trim_start_blank(c: char, s: Seq<char>)
    requires
        blanks().contains(c),
    ensures
        trim_start(seq![c] + s, blanks()) == trim_start(s, blanks()),
{
    let t = seq![c] + s;
    assert(t[0] == c);
    assert(t.skip(1) =~= s);
    assert(span(t, blanks()) == 1 + span(s, blanks()));
    lemma_span(s, blanks());
    assert(t.skip(1 + span(s, blanks()) as int) =~= s.skip(span(s, blanks()) as int));
}

/// An identifier with two spaces before it and two after it parses as
/// itself, whatever text follows: the token is the identifier, and what is
/// left is the following text without the blanks that it begins with. So
/// no blank is left in front, and a following text that begins with a line
/// end, or with any other character that is no blank, is left whole.
pub proof fn theorem_padded_identifier(name: Seq<char>, tail: Seq<char>)
    requires
        is_identifier(name),
    ensures
        ident_of(seq![' ', ' '] + name + seq![' ', ' '] + tail) == Some(
            (name, trim_start(tail, blanks())),
        ),
        !starts_with_any(trim_start(tail, blanks()), blanks()),
        !starts_with_any(tail, blanks()) ==> trim_start(tail, blanks()) == tail,
{
    let s = seq![' ', ' '] + name + seq![' ', ' '] + tail;
    let n = name.len() as int;
    assert(s[0] == ' ' && s[1] == ' ');
    assert(s[2] == name[0]);
    lemma_span_is(s, blanks(), 2);
    let t = trim_start(s, blanks());
    assert(t =~= name + seq![' ', ' '] + tail);
    assert forall|i: int| 0 <= i < n implies ident_part().contains(#[trigger] t[i]) by {
        assert(t[i] == name[i]);
    }
    assert(t[n] == ' ');
    lemma_span_is(t, ident_part(), n as nat);
    assert(t.take(n) =~= name);
    assert(t.skip(n) =~= seq![' '] + (seq![' '] + tail));
    lemma_trim_start_blank(' ', tail);
    lemma_trim_start_blank(' ', seq![' '] + tail);
    lemma_trim_start(tail, blanks());
    if !starts_with_any(tail, blanks()) {
        assert(trim_start(tail, blanks()) =~= tail);
    }
}

/// A text that begins with a digit holds no identifier at its front: the
/// identifier rule fails on it, and so takes nothing of it.
pub proof fn theorem_digit_first(s: Seq<char>)
    requires
        s.len() > 0,
        '0' <= s[0] && s[0] <= '9',
    ensures
        ident_of(s) is None,
{
    lemma_span_is(s, blanks(), 0);
    assert(trim_start(s, blanks()) =~= s);
}

/// A text without a closing brace is no type definition.
pub proof fn theorem_missing_close_brace(s: Seq<char>)
    requires
        forall|i: int| 0 <= i < s.len() ==> s[i] != '}',
    ensures
        type_def_of(s) is Err,
{
    if type_def_of(s) is Ok {
        lemma_type_def_of(s);
    }
}

/// A text that does not begin with the keyword fails at once, for want of
/// the keyword; the name that may stand there is not looked at.
pub proof fn theorem_missing_keyword(s: Seq<char>)
    requires
        !keyword().is_prefix_of(s),
    ensures
        type_def_of(s) == Err::<(TypeDefView, Seq<char>), _>(ParseError::Keyword),
{
}

/// A type definition takes nothing beyond its closing brace and the
/// whitespace after it: the text that a successful parse leaves is what
/// follows a `}` of `s`, without the whitespace that it begins with. So
/// where that text does not begin with the keyword, parsing it as a type
/// definition fails for want of the keyword, and for no other reason.
pub proof fn theorem_rest_has_no_keyword(s: Seq<char>)
    requires
        type_def_of(s) is Ok,
        !keyword().is_prefix_of(type_def_of(s)->Ok_0.1),
    ensures
        type_def_of(type_def_of(s)->Ok_0.1) == Err::<(TypeDefView, Seq<char>), _>(
            ParseError::Keyword,
        ),
        exists|k: int|
            0 <= k < s.len() && s[k] == '}' && type_def_of(s)->Ok_0.1 == trim_start(
                #[trigger] s.skip(k + 1),
                whitespace(),
            ),
{
    lemma_type_def_of(s);
}

} // verus!
