//! Facts about the rules of the grammar that the parsers and the theorems
//! rest on.

use crate::ast::FieldView;
use crate::grammar::{
    blanks, field_list_of, field_of, ident_of, ident_part, is_identifier, keyword, list_of, span,
    starts_with, starts_with_any, trim_start, type_def_of, typed_of, whitespace,
};
use vstd::prelude::*;

verus! {

/// `span` never runs past the end, every character before it lies in
/// `class`, and the character at it, if there is one, does not.
pub proof fn lemma_span(s: Seq<char>, class: Set<char>)
    ensures
        span(s, class) <= s.len(),
        forall|i: int| 0 <= i < span(s, class) ==> class.contains(#[trigger] s[i]),
        span(s, class) < s.len() ==> !class.contains(s[span(s, class) as int]),
    decreases s.len(),
{
    if s.len() > 0 && class.contains(s[0]) {
        lemma_span(s.skip(1), class);
        assert forall|i: int| 0 <= i < span(s, class) implies class.contains(#[trigger] s[i]) by {
            if i > 0 {
                assert(s[i] == s.skip(1)[i - 1]);
            }
        }
        if span(s, class) < s.len() {
            assert(s[span(s, class) as int] == s.skip(1)[span(s.skip(1), class) as int]);
        }
    }
}

/// The only `n` of which the three statements of `lemma_span` hold is
/// `span` itself.
pub proof fn lemma_span_is(s: Seq<char>, class: Set<char>, n: nat)
    requires
        n <= s.len(),
        forall|i: int| 0 <= i < n ==> class.contains(#[trigger] s[i]),
        n < s.len() ==> !class.contains(s[n as int]),
    ensures
        span(s, class) == n,
    decreases n,
{
    if n > 0 {
        let t = s.skip(1);
        assert(class.contains(s[0]));
        assert forall|i: int| 0 <= i < n - 1 implies class.contains(#[trigger] t[i]) by {
            assert(t[i] == s[i + 1]);
        }
        if n - 1 < t.len() {
            assert(t[n - 1] == s[n as int]);
        }
        lemma_span_is(t, class, (n - 1) as nat);
    }
}

/// What is left of `s` from any place on is an end of `s`.
pub proof fn lemma_skip_is_suffix(s: Seq<char>, n: int)
    requires
        0 <= n <= s.len(),
    ensures
        s.skip(n).is_suffix_of(s),
{
    assert(s.skip(n) =~= s.subrange(s.len() - s.skip(n).len(), s.len() as int));
}

/// An end of an end of `c` is an end of `c`.
pub proof fn lemma_suffix_trans(a: Seq<char>, b: Seq<char>, c: Seq<char>)
    requires
        a.is_suffix_of(b),
        b.is_suffix_of(c),
    ensures
        a.is_suffix_of(c),
{
    assert(a =~= b.subrange(b.len() - a.len(), b.len() as int));
    assert(a =~= c.subrange(c.len() - a.len(), c.len() as int));
}

/// What `trim_start` leaves is an end of `s` that begins with no character
/// of `class`, and a second `trim_start` leaves it as it is.
pub proof fn lemma_trim_start(s: Seq<char>, class: Set<char>)
    ensures
        trim_start(s, class).is_suffix_of(s),
        !starts_with_any(trim_start(s, class), class),
        trim_start(trim_start(s, class), class) == trim_start(s, class),
{
    lemma_span(s, class);
    lemma_skip_is_suffix(s, span(s, class) as int);
    let t = trim_start(s, class);
    if t.len() > 0 {
        assert(t[0] == s[span(s, class) as int]);
    }
    assert(t.skip(0) =~= t);
}

/// A text of one character is a prefix of `s` exactly where `s` begins with
/// that character.
pub proof fn lemma_one_char_prefix(token: Seq<char>, s: Seq<char>)
    requires
        token.len() == 1,
    ensures
        token.is_prefix_of(s) <==> starts_with(s, token[0]),
{
    if token.is_prefix_of(s) {
        assert(s[0] == s.subrange(0, 1)[0]);
    }
    if starts_with(s, token[0]) {
        assert(token =~= s.subrange(0, 1));
    }
}

/// What the identifier rule gives is an identifier; what it leaves is a
/// shorter end of `s` that begins with no blank.
pub proof fn lemma_ident_of(s: Seq<char>)
    requires
        ident_of(s) is Some,
    ensures
        is_identifier(ident_of(s)->Some_0.0),
        ident_of(s)->Some_0.1.is_suffix_of(s),
        ident_of(s)->Some_0.1.len() < s.len(),
        !starts_with_any(ident_of(s)->Some_0.1, blanks()),
{
    let t = trim_start(s, blanks());
    let n = span(t, ident_part()) as int;
    let u = t.skip(n);
    lemma_trim_start(s, blanks());
    lemma_span(t, ident_part());
    assert(n > 0);
    lemma_skip_is_suffix(t, n);
    lemma_trim_start(u, blanks());
    lemma_suffix_trans(u, t, s);
    lemma_suffix_trans(trim_start(u, blanks()), u, s);
}

/// What the field rule gives is well formed; what it leaves is a shorter
/// end of `s` that begins with no blank.
pub proof fn lemma_field_of(s: Seq<char>)
    requires
        field_of(s) is Some,
    ensures
        field_of(s)->Some_0.0.wf(),
        field_of(s)->Some_0.1.is_suffix_of(s),
        field_of(s)->Some_0.1.len() < s.len(),
        !starts_with_any(field_of(s)->Some_0.1, blanks()),
{
    lemma_ident_of(s);
    let rest = ident_of(s)->Some_0.1;
    if typed_of(rest) is Some {
        let tail = rest.skip(1);
        lemma_ident_of(tail);
        lemma_skip_is_suffix(rest, 1);
        lemma_suffix_trans(tail, rest, s);
        lemma_suffix_trans(ident_of(tail)->Some_0.1, tail, s);
    }
}

/// That an element rule leaves an end of the text that it was given.
pub open spec fn consuming<A>(elem: spec_fn(Seq<char>) -> Option<(A, Seq<char>)>) -> bool {
    forall|t: Seq<char>| (#[trigger] elem(t)) matches Some((_, r)) ==> r.is_suffix_of(t)
}

/// Over an element rule that leaves an end of its text, the list rule
/// leaves an end of `s` that begins with no whitespace.
pub proof fn lemma_list_of<A>(elem: spec_fn(Seq<char>) -> Option<(A, Seq<char>)>, s: Seq<char>)
    requires
        consuming(elem),
    ensures
        list_of(elem, s).1.is_suffix_of(s),
        !starts_with_any(list_of(elem, s).1, whitespace()),
    decreases s.len(),
{
    let t = trim_start(s, whitespace());
    lemma_trim_start(s, whitespace());
    match elem(t) {
        None => {},
        Some((v, r)) => {
            let u = trim_start(r, whitespace());
            lemma_trim_start(r, whitespace());
            lemma_suffix_trans(r, t, s);
            lemma_suffix_trans(u, r, s);
            if starts_with(u, ',') {
                lemma_list_of(elem, u.skip(1));
                lemma_skip_is_suffix(u, 1);
                lemma_suffix_trans(u.skip(1), u, s);
                lemma_suffix_trans(list_of(elem, u.skip(1)).1, u.skip(1), s);
            }
        },
    }
}

/// Every element of the list has what every result of the element rule
/// has.
pub proof fn lemma_list_of_all<A>(
    elem: spec_fn(Seq<char>) -> Option<(A, Seq<char>)>,
    good: spec_fn(A) -> bool,
    s: Seq<char>,
)
    requires
        forall|t: Seq<char>| (#[trigger] elem(t)) matches Some((v, _)) ==> good(v),
    ensures
        forall|i: int| 0 <= i < list_of(elem, s).0.len() ==> good(#[trigger] list_of(elem, s).0[i]),
    decreases s.len(),
{
    let t = trim_start(s, whitespace());
    match elem(t) {
        None => {},
        Some((v, r)) => {
            let u = trim_start(r, whitespace());
            assert(good(v));
            if starts_with(u, ',') && u.len() <= s.len() {
                lemma_list_of_all(elem, good, u.skip(1));
                let tail = list_of(elem, u.skip(1)).0;
                assert forall|i: int| 0 <= i < list_of(elem, s).0.len() implies good(
                    #[trigger] list_of(elem, s).0[i],
                ) by {
                    if i > 0 {
                        assert(list_of(elem, s).0[i] == tail[i - 1]);
                    }
                }
            }
        },
    }
}

/// The fields of a list are well formed; what the list leaves is an end of
/// `s` that begins with no whitespace.
pub proof fn lemma_field_list_of(s: Seq<char>)
    ensures
        forall|i: int|
            0 <= i < field_list_of(s).0.len() ==> (#[trigger] field_list_of(s).0[i]).wf(),
        field_list_of(s).1.is_suffix_of(s),
        !starts_with_any(field_list_of(s).1, whitespace()),
{
    let elem = |t: Seq<char>| field_of(t);
    assert forall|t: Seq<char>| (#[trigger] elem(t)) is Some implies elem(t)->Some_0.0.wf()
        && elem(t)->Some_0.1.is_suffix_of(t) by {
        lemma_field_of(t);
    }
    lemma_list_of(elem, s);
    lemma_list_of_all(elem, |v: FieldView| v.wf(), s);
}

/// A type definition that parsed is well formed. What is left is a shorter
/// end of `s` that begins with no whitespace: the text after one `}` of
/// `s`, without the whitespace that it begins with.
pub proof fn lemma_type_def_of(s: Seq<char>)
    requires
        type_def_of(s) is Ok,
    ensures
        type_def_of(s)->Ok_0.0.wf(),
        type_def_of(s)->Ok_0.1.is_suffix_of(s),
        type_def_of(s)->Ok_0.1.len() < s.len(),
        !starts_with_any(type_def_of(s)->Ok_0.1, whitespace()),
        exists|k: int|
            0 <= k < s.len() && s[k] == '}' && type_def_of(s)->Ok_0.1 == trim_start(
                #[trigger] s.skip(k + 1),
                whitespace(),
            ),
{
    let head = s.skip(keyword().len() as int);
    lemma_skip_is_suffix(s, keyword().len() as int);
    lemma_ident_of(head);
    let body = ident_of(head)->Some_0.1;
    lemma_suffix_trans(body, head, s);
    let inner = body.skip(1);
    lemma_skip_is_suffix(body, 1);
    lemma_suffix_trans(inner, body, s);
    lemma_field_list_of(inner);
    let end = field_list_of(inner).1;
    lemma_suffix_trans(end, inner, s);
    let k = s.len() - end.len();
    assert(end =~= s.skip(k));
    assert(s[k] == end[0]);
    let tail = end.skip(1);
    assert(tail =~= s.skip(k + 1));
    lemma_skip_is_suffix(s, k + 1);
    lemma_trim_start(tail, whitespace());
    lemma_suffix_trans(trim_start(tail, whitespace()), tail, s);
}

} // verus!
