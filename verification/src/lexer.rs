//! Blanks and identifiers: the tokens of the grammar.

use crate::ast::ParseError;
use crate::grammar::{
    alphanumerics, blanks, ident_of, ident_part, ident_start, is_identifier, letters, trim_start,
    whitespace,
};
use crate::lemmas::{lemma_ident_of, lemma_span, lemma_span_is};
use crate::primitives::{alpha1, alphanumeric0, many0_one_of, tag};
use vstd::prelude::*;
use vstd::string::StringExecFns;

verus! {

/// Skips blanks within a line: spaces and tabs. Always succeeds.
pub fn space<'a>(input: &'a str) -> (r: Result<(&'a str, ()), ParseError>)
    ensures
        r is Ok,
        r->Ok_0.0@ == trim_start(input@, blanks()),
{
    proof {
        reveal_strlit(" \t");
        assert(" \t"@.to_set() =~= blanks()) by {
            assert(" \t"@[0] == ' ');
            assert(" \t"@[1] == '\t');
        }
    }
    match many0_one_of(" \t", input) {
        Ok((rest, _)) => Ok((rest, ())),
        // skipping does not fail
        Err(_) => Ok((input, ())),
    }
}

/// Skips blanks and line ends: spaces, tabs, newlines and carriage returns.
/// Always succeeds.
pub fn linespace<'a>(input: &'a str) -> (r: Result<(&'a str, ()), ParseError>)
    ensures
        r is Ok,
        r->Ok_0.0@ == trim_start(input@, whitespace()),
{
    proof {
        reveal_strlit(" \t\n\r");
        assert(" \t\n\r"@.to_set() =~= whitespace()) by {
            assert(" \t\n\r"@[0] == ' ');
            assert(" \t\n\r"@[1] == '\t');
            assert(" \t\n\r"@[2] == '\n');
            assert(" \t\n\r"@[3] == '\r');
        }
    }
    match many0_one_of(" \t\n\r", input) {
        Ok((rest, _)) => Ok((rest, ())),
        // skipping does not fail
        Err(_) => Ok((input, ())),
    }
}

/// Parses an identifier with the blanks around it: a letter or `_`, then as
/// many letters, digits and `_` as follow. Returns an owned copy of the
/// token and the text after the blanks that follow it. Fails where the
/// text does not begin, after blanks, with a letter or `_`.
pub fn ident<'a>(input: &'a str) -> (r: Result<(&'a str, String), ParseError>)
    ensures
        match r {
            Ok((rest, name)) => ident_of(input@) == Some((name@, rest@)),
            Err(e) => ident_of(input@) is None && e == ParseError::Identifier,
        },
        r matches Ok((rest, name)) ==> is_identifier(name@) && rest@.is_suffix_of(input@)
            && rest@.len() < input@.len(),
{
    proof {
        if ident_of(input@) is Some {
            lemma_ident_of(input@);
        }
    }
    let (start, _) = space(input)?;
    proof {
        reveal_strlit("_");
        lemma_span(start@, letters());
    }
    // the first character: `_`, or a run of letters
    let (mut cur, first) = match tag("_", start) {
        Ok(split) => split,
        Err(_) => match alpha1(start) {
            Ok(split) => split,
            Err(_) => return Err(ParseError::Identifier),
        },
    };
    let mut name = first.to_owned();
    assert(name@ + cur@ =~= start@);
    // what follows: `_`, or a run of letters and digits, as often as either is there
    loop
        invariant
            name@ + cur@ == start@,
            name@.len() > 0,
            forall|i: int| 0 <= i < name@.len() ==> ident_part().contains(#[trigger] name@[i]),
        ensures
            cur@.len() == 0 || !ident_part().contains(cur@[0]),
        decreases cur@.len(),
    {
        let ghost before = name@;
        proof {
            reveal_strlit("_");
            lemma_span(cur@, alphanumerics());
        }
        let (rest, more) = match tag("_", cur) {
            Ok(split) => split,
            Err(_) => match alphanumeric0(cur) {
                Ok(split) => split,
                Err(_) => break,
            },
        };
        if more.is_empty() {
            break;
        }
        name.append(more);
        assert forall|i: int| 0 <= i < name@.len() implies ident_part().contains(
            #[trigger] name@[i],
        ) by {
            if i >= before.len() {
                assert(name@[i] == more@[i - before.len()]);
                assert(more@[i - before.len()] == cur@[i - before.len()]);
            }
        }
        assert(name@ + rest@ =~= start@);
        cur = rest;
    }
    proof {
        assert(ident_start().contains(start@[0]));
        assert forall|i: int| 0 <= i < name@.len() implies ident_part().contains(
            #[trigger] start@[i],
        ) by {
            assert(start@[i] == name@[i]);
        }
        if name@.len() < start@.len() {
            assert(start@[name@.len() as int] == cur@[0]);
        }
        lemma_span_is(start@, ident_part(), name@.len());
        assert(start@.take(name@.len() as int) =~= name@);
        assert(start@.skip(name@.len() as int) =~= cur@);
    }
    let (rest, _) = space(cur)?;
    Ok((rest, name))
}

} // verus!
