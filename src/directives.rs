use vstd::prelude::*;

use crate::instructions::begins;
use crate::parse::{
    after_comma, lemma_span_bounds, name, number, parse_name, parse_num, pcomma, rest_from,
    skip_ws, skip_ws1, starts_with, whitespace, whitespace1, dec_pred, hex_pred, ws_pred,
};

verus! {

/// What follows the directive word `w` and at least one whitespace
/// character.
pub open spec fn after_directive(s: Seq<char>, w: Seq<char>) -> Option<Seq<char>> {
    if begins(s, w) {
        skip_ws1(s.skip(w.len() as int))
    } else {
        None
    }
}

pub open spec fn repeat_form(s: Seq<char>) -> Option<(u8, u16)> {
    match after_directive(s, ".repeat"@) {
        Some(t) => match number(t) {
            Some((rest, x)) => match after_comma(rest) {
                Some(u) => match number(u) {
                    Some((_, y)) => Some(((x % 256) as u8, y)),
                    None => None,
                },
                None => None,
            },
            None => None,
        },
        None => None,
    }
}

pub open spec fn reserve_form(s: Seq<char>) -> Option<u16> {
    match after_directive(s, ".reserve"@) {
        Some(t) => match number(t) {
            Some((_, x)) => Some(x),
            None => None,
        },
        None => None,
    }
}

pub open spec fn entrypoint_form(s: Seq<char>) -> Option<Seq<char>> {
    match after_directive(s, ".entrypoint"@) {
        Some(t) => match name(t) {
            Some((_, n)) => Some(n),
            None => None,
        },
        None => None,
    }
}

/// The bytes after the first one of a `db` line: each after a comma, with
/// optional whitespace around.
pub open spec fn more_bytes(s: Seq<char>) -> Option<Seq<u8>>
    decreases s.len(),
{
    match after_comma(skip_ws(s)) {
        Some(u) => match number(skip_ws(u)) {
            Some((rest, v)) => if rest.len() < s.len() {
                match more_bytes(rest) {
                    Some(t) => Some(seq![(v % 256) as u8] + t),
                    None => None,
                }
            } else {
                None
            },
            None => None,
        },
        None => Some(Seq::empty()),
    }
}

pub open spec fn bytes_form(s: Seq<char>) -> Option<Seq<u8>> {
    match after_directive(s, "db"@) {
        Some(t) => match number(t) {
            Some((rest, v)) => match more_bytes(rest) {
                Some(m) => Some(seq![(v % 256) as u8] + m),
                None => None,
            },
            None => None,
        },
        None => None,
    }
}

fn directive_then<'b>(input: &'b str, w: &str) -> (r: Option<&'b str>)
    ensures
        r matches Some(t) ==> after_directive(input@, w@) == Some(t@),
        r is None ==> after_directive(input@, w@) is None,
{
    if !starts_with(input, w) {
        return None;
    }
    whitespace1(rest_from(input, w.unicode_len()))
}

/// `.repeat byte, count`: the byte (its low 8 bits) and the count.
pub fn repeat(input: &str) -> (r: Option<(u8, u16)>)
    ensures
        r == repeat_form(input@),
{
    let t = match directive_then(input, ".repeat") {
        Some(t) => t,
        None => {
            return None;
        },
    };
    let (rest, x) = match parse_num(t) {
        Some(p) => p,
        None => {
            return None;
        },
    };
    let u = match pcomma(rest) {
        Some(u) => u,
        None => {
            return None;
        },
    };
    match parse_num(u) {
        Some((_, y)) => Some(((x % 256) as u8, y)),
        None => None,
    }
}

/// `.reserve count`.
pub fn reserve(input: &str) -> (r: Option<u16>)
    ensures
        r == reserve_form(input@),
{
    match directive_then(input, ".reserve") {
        Some(t) => match parse_num(t) {
            Some((_, x)) => Some(x),
            None => None,
        },
        None => None,
    }
}

/// `.entrypoint name`: the name.
pub fn entrypoint(input: &str) -> (r: Option<&str>)
    ensures
        r matches Some(n) ==> entrypoint_form(input@) == Some(n@),
        r is None ==> entrypoint_form(input@) is None,
{
    match directive_then(input, ".entrypoint") {
        Some(t) => match parse_name(t) {
            Some((_, n)) => Some(n),
            None => None,
        },
        None => None,
    }
}

proof fn lemma_number_rest(s: Seq<char>)
    ensures
        number(s) matches Some(p) ==> p.0.len() <= s.len(),
{
    lemma_span_bounds(s, 0, dec_pred());
    if s.len() >= 2 {
        lemma_span_bounds(s.skip(2), 0, hex_pred());
    }
}

proof fn lemma_skip_ws_len(s: Seq<char>)
    ensures
        skip_ws(s).len() <= s.len(),
{
    lemma_span_bounds(s, 0, ws_pred());
}

/// `db byte, byte, ...`: the bytes (the low 8 bits of each number).
pub fn sequence_bytes(input: &str) -> (r: Option<Vec<u8>>)
    ensures
        r matches Some(v) ==> bytes_form(input@) == Some(v@),
        r is None ==> bytes_form(input@) is None,
{
    let t = match directive_then(input, "db") {
        Some(t) => t,
        None => {
            return None;
        },
    };
    let (mut rest, first) = match parse_num(t) {
        Some(p) => p,
        None => {
            return None;
        },
    };
    let mut values: Vec<u8> = Vec::new();
    values.push((first % 256) as u8);
    loop
        invariant
            bytes_form(input@) == match more_bytes(rest@) {
                Some(m) => Some(values@ + m),
                None => None,
            },
        decreases rest@.len(),
    {
        let u = match pcomma(whitespace(rest)) {
            Some(u) => u,
            None => {
                assert(values@ + Seq::<u8>::empty() =~= values@);
                return Some(values);
            },
        };
        let (next, v) = match parse_num(whitespace(u)) {
            Some(p) => p,
            None => {
                return None;
            },
        };
        proof {
            lemma_skip_ws_len(rest@);
            lemma_skip_ws_len(skip_ws(rest@));
            lemma_skip_ws_len(u@);
            lemma_number_rest(skip_ws(u@));
            let t1 = skip_ws(rest@);
            let t2 = skip_ws(t1);
            lemma_skip_ws_len(t2);
            lemma_skip_ws_len(t2.skip(1));
            assert(u@.len() < rest@.len());
            match more_bytes(next@) {
                Some(m) => {
                    assert(values@ + (seq![(v % 256) as u8] + m) =~= values@.push((v % 256) as u8)
                        + m);
                },
                None => {},
            }
        }
        values.push((v % 256) as u8);
        rest = next;
    }
}

} // verus!
