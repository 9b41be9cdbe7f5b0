//! The rules of the grammar: a field, a comma-separated list, a type
//! definition.

use crate::ast::{Field, ParseError, TypeDef, TypeDefView};
use crate::grammar::{
    blanks, field_list_of, field_of, keyword, list_of, starts_with, trim_start, type_def_of,
    whitespace,
};
use crate::lemmas::{
    lemma_field_list_of, lemma_field_of, lemma_one_char_prefix, lemma_trim_start,
    lemma_type_def_of,
};
use crate::lexer::{ident, linespace, space};
use crate::primitives::tag;
use vstd::prelude::*;

verus! {

/// Parses one field: an identifier, and where `:` and a second identifier
/// follow, that identifier as the field's type. Fails only where the first
/// identifier is missing. A `:` that no identifier follows is left in the
/// text, and the field is untyped.
pub fn opt_typed_name<'a>(input: &'a str) -> (r: Result<(&'a str, Field), ParseError>)
    ensures
        match r {
            Ok((rest, field)) => field_of(input@) == Some((field@, rest@)),
            Err(e) => field_of(input@) is None && e == ParseError::Identifier,
        },
        r matches Ok((rest, field)) ==> field@.wf() && rest@.is_suffix_of(input@) && rest@.len()
            < input@.len(),
{
    proof {
        if field_of(input@) is Some {
            lemma_field_of(input@);
        }
    }
    let (input, name) = ident(input)?;
    proof {
        reveal_strlit(":");
        lemma_one_char_prefix(":"@, input@);
    }
    match tag(":", input) {
        Ok((after, _)) => {
            match ident(after) {
                Ok((rest, typ)) => Ok((rest, Field { name, typ: Some(typ) })),
                Err(_) => Ok((input, Field { name, typ: None })),
            }
        },
        Err(_) => Ok((input, Field { name, typ: None })),
    }
}

/// That `inner` may fail on the text `t`.
pub open spec fn elem_fails<V, F: Fn(&str) -> Result<(&str, V), ParseError>>(
    inner: F,
    t: Seq<char>,
) -> bool {
    exists|i: &str, e: ParseError| i@ == t && #[trigger] inner.ensures((i,), Err(e))
}

/// That `inner` may return the value `v` on the text `t` and leave `r`.
pub open spec fn elem_yields<V, F: Fn(&str) -> Result<(&str, V), ParseError>>(
    inner: F,
    t: Seq<char>,
    v: V,
    r: Seq<char>,
) -> bool {
    exists|i: &str, o: &str| i@ == t && o@ == r && #[trigger] inner.ensures((i,), Ok((o, v)))
}

/// That the list rule over `inner` may give the values `vals` on the text
/// `s` and leave `rest`: whitespace is skipped; then either `inner` fails
/// and the list is over, or it yields the first value, whitespace is
/// skipped, and a `,` leads to the rest of the list while anything else
/// ends it.
pub open spec fn list_run<V, F: Fn(&str) -> Result<(&str, V), ParseError>>(
    inner: F,
    s: Seq<char>,
    vals: Seq<V>,
    rest: Seq<char>,
) -> bool
    decreases vals.len(),
{
    let t = trim_start(s, whitespace());
    if vals.len() == 0 {
        rest == t && elem_fails(inner, t)
    } else {
        exists|r: Seq<char>| #[trigger]
            elem_yields(inner, t, vals[0], r) && {
                let u = trim_start(r, whitespace());
                if starts_with(u, ',') {
                    list_run(inner, u.skip(1), vals.skip(1), rest)
                } else {
                    vals.len() == 1 && rest == u
                }
            }
    }
}

/// One more element in front: where `inner` may yield `v` at the head of
/// `s`, a `,` follows, and the list may go on from there with `vals`, the
/// list from `s` may give `v` and then `vals`.
proof fn lemma_list_run_step<V, F: Fn(&str) -> Result<(&str, V), ParseError>>(
    inner: F,
    s: Seq<char>,
    v: V,
    r: Seq<char>,
    vals: Seq<V>,
    rest: Seq<char>,
)
    requires
        elem_yields(inner, trim_start(s, whitespace()), v, r),
        starts_with(trim_start(r, whitespace()), ','),
        list_run(inner, trim_start(r, whitespace()).skip(1), vals, rest),
    ensures
        list_run(inner, s, seq![v] + vals, rest),
{
    let all = seq![v] + vals;
    assert(all[0] == v);
    assert(all.skip(1) =~= vals);
}

/// The loop of [`csl`]: the list of what `inner_ref` parses, on `input`.
fn csl_on<'a, V, F>(inner_ref: &F, input: &'a str) -> (r: Result<
    (&'a str, Vec<V>),
    ParseError,
>) where F: Fn(&str) -> Result<(&str, V), ParseError>

    requires
        forall|i: &str| (*inner_ref).requires((i,)),
        forall|i: &str, o: &str, v: V| #[trigger]
            (*inner_ref).ensures((i,), Ok((o, v))) ==> o@.len() <= i@.len(),
    ensures
        r is Ok,
        list_run(*inner_ref, input@, r->Ok_0.1@, r->Ok_0.0@),
{
    let ghost inner = *inner_ref;
    let mut cur = input;
    let mut result: Vec<V> = Vec::new();
    assert(result@ + Seq::<V>::empty() =~= result@);
    loop
        invariant_except_break
            forall|vals: Seq<V>, rest: Seq<char>| #[trigger]
                list_run(inner, cur@, vals, rest) ==> list_run(
                    inner,
                    input@,
                    result@ + vals,
                    rest,
                ),
        invariant
            inner == *inner_ref,
            forall|i: &str| inner.requires((i,)),
            forall|i: &str, o: &str, v: V| #[trigger]
                inner.ensures((i,), Ok((o, v))) ==> o@.len() <= i@.len(),
        ensures
            list_run(inner, input@, result@, cur@),
            trim_start(cur@, whitespace()) == cur@,
        decreases cur@.len(),
    {
        let ghost head = cur@;
        let ghost done = result@;
        proof {
            lemma_trim_start(head, whitespace());
        }
        cur = linespace(cur)?.0;
        let ghost at = cur;
        match (*inner_ref)(cur) {
            Err(e) => {
                proof {
                    assert(inner.ensures((at,), Err(e)));
                    assert(elem_fails(inner, at@));
                    assert(list_run(inner, head, Seq::<V>::empty(), at@));
                    assert(done + Seq::<V>::empty() =~= done);
                }
                break;
            },
            Ok((rest, value)) => {
                proof {
                    assert(inner.ensures((at,), Ok((rest, value))));
                    assert(elem_yields(inner, at@, value, rest@));
                    lemma_trim_start(rest@, whitespace());
                    reveal_strlit(",");
                }
                let ghost left = rest@;
                cur = rest;
                result.push(value);
                cur = linespace(cur)?.0;
                proof {
                    lemma_one_char_prefix(","@, cur@);
                }
                match tag(",", cur) {
                    Ok((rest, _)) => {
                        proof {
                            assert forall|vals: Seq<V>, end: Seq<char>| #[trigger]
                                list_run(inner, rest@, vals, end) implies list_run(
                                inner,
                                input@,
                                result@ + vals,
                                end,
                            ) by {
                                lemma_list_run_step(inner, head, value, left, vals, end);
                                assert(done + (seq![value] + vals) =~= result@ + vals);
                            }
                        }
                        cur = rest;
                    },
                    Err(_) => {
                        proof {
                            let one = seq![value];
                            assert(one[0] == value);
                            assert(elem_yields(inner, trim_start(head, whitespace()), one[0], left));
                            assert(trim_start(left, whitespace()) == cur@);
                            assert(!starts_with(cur@, ','));
                            assert(list_run(inner, head, one, cur@));
                            assert(done + seq![value] =~= result@);
                            lemma_trim_start(left, whitespace());
                        }
                        break;
                    },
                }
            },
        }
    }
    let (rest, _) = linespace(cur)?;
    Ok((rest, result))
}

/// Makes the parser of a comma-separated list of what `inner` parses.
/// Whitespace, line ends included, may stand around each element and each
/// `,`; a `,` after the last element is taken. The list ends where `inner`
/// fails or no `,` follows an element, so the parser never fails; the text
/// that it leaves begins with no whitespace.
///
/// `inner` must accept every text and leave no more text than it was given.
pub fn csl<V, F>(inner: F) -> (parser: impl Fn(&str) -> Result<(&str, Vec<V>), ParseError>) where
    F: Fn(&str) -> Result<(&str, V), ParseError>,

    requires
        forall|i: &str| inner.requires((i,)),
        forall|i: &str, o: &str, v: V| #[trigger]
            inner.ensures((i,), Ok((o, v))) ==> o@.len() <= i@.len(),
    ensures
        forall|i: &str| parser.requires((i,)),
        forall|i: &str, r: Result<(&str, Vec<V>), ParseError>| #[trigger]
            parser.ensures((i,), r) ==> r is Ok && list_run(inner, i@, r->Ok_0.1@, r->Ok_0.0@),
{
    move |input: &str| -> (r: Result<(&str, Vec<V>), ParseError>)
        ensures
            r is Ok && list_run(inner, input@, r->Ok_0.1@, r->Ok_0.0@),
        { csl_on(&inner, input) }
}

/// Where `inner` is a function of the text, the list is one too: if every
/// result of `inner` is what the element rule `elem` gives, a value taken
/// by `abs`, then every list that `inner` may give is what the list rule
/// over `elem` gives.
pub proof fn lemma_list_run_is_list_of<V, A, F: Fn(&str) -> Result<(&str, V), ParseError>>(
    inner: F,
    abs: spec_fn(V) -> A,
    elem: spec_fn(Seq<char>) -> Option<(A, Seq<char>)>,
    s: Seq<char>,
    vals: Seq<V>,
    rest: Seq<char>,
)
    requires
        forall|i: &str, o: &str, v: V| #[trigger]
            inner.ensures((i,), Ok((o, v))) ==> o@.len() <= i@.len() && elem(i@) == Some(
                (abs(v), o@),
            ),
        forall|i: &str, e: ParseError| #[trigger]
            inner.ensures((i,), Err(e)) ==> elem(i@) is None,
        list_run(inner, s, vals, rest),
    ensures
        list_of(elem, s) == (vals.map_values(abs), rest),
    decreases vals.len(),
{
    let t = trim_start(s, whitespace());
    lemma_trim_start(s, whitespace());
    if vals.len() == 0 {
        assert(vals.map_values(abs) =~= Seq::<A>::empty());
    } else {
        let r = choose|r: Seq<char>| #[trigger]
            elem_yields(inner, t, vals[0], r) && {
                let u = trim_start(r, whitespace());
                if starts_with(u, ',') {
                    list_run(inner, u.skip(1), vals.skip(1), rest)
                } else {
                    vals.len() == 1 && rest == u
                }
            };
        let u = trim_start(r, whitespace());
        lemma_trim_start(r, whitespace());
        assert(elem(t) == Some((abs(vals[0]), r)));
        if starts_with(u, ',') {
            lemma_list_run_is_list_of(inner, abs, elem, u.skip(1), vals.skip(1), rest);
            assert(vals.map_values(abs) =~= seq![abs(vals[0])] + vals.skip(1).map_values(abs));
        } else {
            assert(vals.map_values(abs) =~= seq![abs(vals[0])]);
        }
    }
}

/// Parses the list of fields between the braces of a type definition: the
/// list of [`csl`] over [`opt_typed_name`]. Never fails.
pub fn field_list<'a>(input: &'a str) -> (r: Result<(&'a str, Vec<Field>), ParseError>)
    ensures
        r is Ok,
        field_list_of(input@) == (r->Ok_0.1@.map_values(|f: Field| f@), r->Ok_0.0@),
        forall|i: int| 0 <= i < r->Ok_0.1@.len() ==> (#[trigger] r->Ok_0.1@[i])@.wf(),
        r->Ok_0.0@.is_suffix_of(input@),
{
    proof {
        lemma_field_list_of(input@);
        assert forall|i: &str, o: &str, v: Field| #[trigger]
            opt_typed_name.ensures((i,), Ok((o, v))) implies o@.len() <= i@.len() && field_of(i@)
            == Some((v@, o@)) by {
            lemma_field_of(i@);
        }
    }
    let parser = csl(opt_typed_name);
    let r = parser(input);
    proof {
        lemma_list_run_is_list_of(
            opt_typed_name,
            |f: Field| f@,
            |t: Seq<char>| field_of(t),
            input@,
            r->Ok_0.1@,
            r->Ok_0.0@,
        );
        let views = r->Ok_0.1@.map_values(|f: Field| f@);
        assert forall|i: int| 0 <= i < r->Ok_0.1@.len() implies (#[trigger] r->Ok_0.1@[i])@.wf() by {
            assert(field_list_of(input@).0[i].wf());
            assert(views[i] == r->Ok_0.1@[i]@);
        }
    }
    r
}

/// Parses one type definition: the keyword `type`, the name, `{`, the list
/// of fields, `}`, and the whitespace after it. Fails with the first of
/// these that is missing, and then returns nothing of what it had parsed.
pub fn type_def<'a>(input: &'a str) -> (r: Result<(&'a str, TypeDef), ParseError>)
    ensures
        match r {
            Ok((rest, def)) => type_def_of(input@) == Ok::<_, ParseError>((def@, rest@)),
            Err(e) => type_def_of(input@) == Err::<(TypeDefView, Seq<char>), _>(e),
        },
        r matches Ok((rest, def)) ==> def@.wf() && rest@.is_suffix_of(input@) && rest@.len()
            < input@.len(),
{
    proof {
        if type_def_of(input@) is Ok {
            lemma_type_def_of(input@);
        }
        reveal_strlit("type");
        reveal_strlit("{");
        reveal_strlit("}");
        assert("type"@ =~= keyword());
    }
    let input = match tag("type", input) {
        Ok((rest, _)) => rest,
        Err(_) => return Err(ParseError::Keyword),
    };
    proof {
        lemma_trim_start(input@, blanks());
    }
    let (input, _) = space(input)?;
    let (input, name) = ident(input)?;
    proof {
        lemma_one_char_prefix("{"@, input@);
    }
    let input = match tag("{", input) {
        Ok((rest, _)) => rest,
        Err(_) => return Err(ParseError::OpenBrace),
    };
    let (input, fields) = field_list(input)?;
    proof {
        lemma_one_char_prefix("}"@, input@);
    }
    let input = match tag("}", input) {
        Ok((rest, _)) => rest,
        Err(_) => return Err(ParseError::CloseBrace),
    };
    let (input, _) = linespace(input)?;
    Ok((input, TypeDef { name, fields }))
}

} // verus!
