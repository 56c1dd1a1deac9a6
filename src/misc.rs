use vstd::prelude::*;

use crate::expr::{expr_text, pexpr, Value, ValueView};
use crate::parse::{name, parse_name, rest_from, skip_ws, whitespace};

verus! {

/// `name = expression`: the name and the expression.
pub open spec fn constant_form(s: Seq<char>) -> Option<(Seq<char>, Seq<char>)> {
    match name(s) {
        Some((rest, n)) => {
            let t = skip_ws(rest);
            if t.len() > 0 && t[0] == '=' {
                match expr_text(skip_ws(t.skip(1))) {
                    Some(e) => Some((n, e)),
                    None => None,
                }
            } else {
                None
            }
        },
        None => None,
    }
}

/// `name:`: the name.
pub open spec fn label_form(s: Seq<char>) -> Option<Seq<char>> {
    match name(s) {
        Some((rest, n)) => if rest.len() > 0 && rest[0] == ':' {
            Some(n)
        } else {
            None
        },
        None => None,
    }
}

/// A constant definition, `name = expression`.
pub fn constant(input: &str) -> (r: Option<(&str, Value<'_, u16>)>)
    ensures
        r matches Some(p) ==> constant_form(input@) matches Some(f) && p.0@ == f.0 && p.1.view()
            == ValueView::<u16>::Partial(f.1),
        r is None ==> constant_form(input@) is None,
{
    let (rest, n) = match parse_name(input) {
        Some(p) => p,
        None => {
            return None;
        },
    };
    let t = whitespace(rest);
    if t.unicode_len() == 0 || t.get_char(0) != '=' {
        return None;
    }
    match pexpr(whitespace(rest_from(t, 1))) {
        Some(v) => Some((n, v)),
        None => None,
    }
}

/// A label, `name:`.
pub fn label(input: &str) -> (r: Option<&str>)
    ensures
        r matches Some(n) ==> label_form(input@) == Some(n@),
        r is None ==> label_form(input@) is None,
{
    let (rest, n) = match parse_name(input) {
        Some(p) => p,
        None => {
            return None;
        },
    };
    if rest.unicode_len() == 0 || rest.get_char(0) != ':' {
        return None;
    }
    Some(n)
}

} // verus!
