use vstd::prelude::*;

verus! {

/// The characters with the Unicode White_Space property: tab to carriage
/// return, space, next line, no-break space, ogham space mark, en quad to
/// hair space, line and paragraph separators, narrow no-break space, medium
/// mathematical space and ideographic space.
pub open spec fn is_ws(c: char) -> bool {
    let u = c as u32;
    (0x9 <= u <= 0xd) || u == 0x20 || u == 0x85 || u == 0xa0 || u == 0x1680 || (0x2000 <= u
        <= 0x200a) || u == 0x2028 || u == 0x2029 || u == 0x202f || u == 0x205f || u == 0x3000
}

/// What `char::is_alphabetic` answers: the Unicode Alphabetic property.
pub uninterp spec fn is_alpha(c: char) -> bool;

/// What `char::is_alphanumeric` answers: Alphabetic or Numeric.
pub uninterp spec fn is_alnum(c: char) -> bool;

/// Relies on `char::is_whitespace`: true exactly for the characters with the
/// White_Space property.
#[verifier::external_body]
pub(crate) fn whitespace_char(c: char) -> (r: bool)
    ensures
        r == is_ws(c),
{
    c.is_whitespace()
}

/// Relies on `char::is_alphabetic`.
#[verifier::external_body]
fn alphabetic_char(c: char) -> (r: bool)
    ensures
        r == is_alpha(c),
{
    c.is_alphabetic()
}

/// Relies on `char::is_alphanumeric`, which is true for every alphabetic or
/// numeric character.
#[verifier::external_body]
fn alphanumeric_char(c: char) -> (r: bool)
    ensures
        r == is_alnum(c),
        is_alpha(c) ==> r,
{
    c.is_alphanumeric()
}

pub open spec fn is_dec_char(c: char) -> bool {
    '0' <= c <= '9'
}

pub open spec fn is_hex_char(c: char) -> bool {
    ('0' <= c <= '9') || ('a' <= c <= 'f') || ('A' <= c <= 'F')
}

pub open spec fn hex_val(c: char) -> nat {
    if '0' <= c <= '9' {
        (c as nat - 48) as nat
    } else if 'a' <= c <= 'f' {
        (c as nat - 87) as nat
    } else {
        (c as nat - 55) as nat
    }
}

pub open spec fn ws_pred() -> spec_fn(char) -> bool {
    |c: char| is_ws(c)
}

pub open spec fn hex_pred() -> spec_fn(char) -> bool {
    |c: char| is_hex_char(c)
}

pub open spec fn dec_pred() -> spec_fn(char) -> bool {
    |c: char| is_dec_char(c)
}

/// Characters that may start a name.
pub open spec fn name_start_pred() -> spec_fn(char) -> bool {
    |c: char| c == '@' || c == '_' || is_alpha(c)
}

/// Characters that may continue a name.
pub open spec fn name_pred() -> spec_fn(char) -> bool {
    |c: char| c == '@' || c == '_' || is_alnum(c)
}

/// The end of the run of characters from `i` on that satisfy `p`.
pub open spec fn span(s: Seq<char>, i: int, p: spec_fn(char) -> bool) -> int
    decreases s.len() - i,
{
    if 0 <= i < s.len() && p(s[i]) {
        span(s, i + 1, p)
    } else {
        i
    }
}

pub(crate) proof fn lemma_span_bounds(s: Seq<char>, i: int, p: spec_fn(char) -> bool)
    requires
        0 <= i <= s.len(),
    ensures
        i <= span(s, i, p) <= s.len(),
        span(s, i, p) < s.len() ==> !p(s[span(s, i, p)]),
        forall|j: int| i <= j < span(s, i, p) ==> p(#[trigger] s[j]),
    decreases s.len() - i,
{
    if i < s.len() && p(s[i]) {
        lemma_span_bounds(s, i + 1, p);
    }
}

/// `s` without its leading whitespace. A string of whitespace alone keeps
/// its last character.
pub open spec fn skip_ws(s: Seq<char>) -> Seq<char> {
    let k = span(s, 0, ws_pred());
    if k < s.len() {
        s.skip(k)
    } else if s.len() > 0 {
        s.skip(s.len() - 1)
    } else {
        s
    }
}

pub open spec fn skip_ws1(s: Seq<char>) -> Option<Seq<char>> {
    if s.len() > 0 && is_ws(s[0]) {
        Some(skip_ws(s.skip(1)))
    } else {
        None
    }
}

pub open spec fn after_comma(s: Seq<char>) -> Option<Seq<char>> {
    let t = skip_ws(s);
    if t.len() > 0 && t[0] == ',' {
        Some(skip_ws(t.skip(1)))
    } else {
        None
    }
}

/// The number of characters before the first `c`, or the length.
pub open spec fn find_char(s: Seq<char>, c: char) -> int {
    span(s, 0, not_char(c))
}

pub open spec fn not_char(c: char) -> spec_fn(char) -> bool {
    |d: char| d != c
}

pub open spec fn hex_acc(s: Seq<char>, k: int) -> nat
    decreases k,
{
    if k <= 0 {
        0
    } else {
        hex_acc(s, k - 1) * 16 + hex_val(s[k - 1])
    }
}

pub open spec fn dec_acc(s: Seq<char>, k: int) -> nat
    decreases k,
{
    if k <= 0 {
        0
    } else {
        (dec_acc(s, k - 1) * 10 + (s[k - 1] as nat - 48)) as nat
    }
}

/// Whether `s` starts with `0x` or `0X` and a hexadecimal digit.
pub open spec fn hex_prefixed(s: Seq<char>) -> bool {
    s.len() >= 3 && s[0] == '0' && (s[1] == 'x' || s[1] == 'X') && is_hex_char(s[2])
}

/// A hexadecimal number after `0x` or `0X`: at least one digit, and no value
/// above 0xFFFF.
pub open spec fn hex_number(s: Seq<char>) -> Option<(Seq<char>, u16)> {
    if hex_prefixed(s) {
        let t = s.skip(2);
        let k = span(t, 0, hex_pred());
        if hex_acc(t, k) > 0xffff {
            None
        } else {
            Some((t.skip(k), hex_acc(t, k) as u16))
        }
    } else {
        None
    }
}

/// A decimal number: at least one digit, and no value above 65535.
pub open spec fn dec_number(s: Seq<char>) -> Option<(Seq<char>, u16)> {
    if s.len() >= 1 && is_dec_char(s[0]) {
        let k = span(s, 0, dec_pred());
        if dec_acc(s, k) > 0xffff {
            None
        } else {
            Some((s.skip(k), dec_acc(s, k) as u16))
        }
    } else {
        None
    }
}

/// A hexadecimal number where `s` starts with `0x` or `0X` and a digit, else
/// a decimal one.
pub open spec fn number(s: Seq<char>) -> Option<(Seq<char>, u16)> {
    if hex_prefixed(s) {
        hex_number(s)
    } else {
        dec_number(s)
    }
}

/// A name: a run of characters that may start one, then of characters that
/// may continue one. Gives what follows and the name.
pub open spec fn name(s: Seq<char>) -> Option<(Seq<char>, Seq<char>)> {
    let k1 = span(s, 0, name_start_pred());
    let k = span(s, k1, name_pred());
    if k1 == 0 {
        None
    } else {
        Some((s.skip(k), s.take(k)))
    }
}

/// Whether `s` begins with `p`.
pub fn starts_with(s: &str, p: &str) -> (r: bool)
    ensures
        r == (p@.len() <= s@.len() && s@.take(p@.len() as int) == p@),
{
    let n = p.unicode_len();
    if n > s.unicode_len() {
        return false;
    }
    let mut i: usize = 0;
    while i < n
        invariant
            n == p@.len() <= s@.len(),
            i <= n,
            forall|j: int| 0 <= j < i ==> s@[j] == p@[j],
        decreases n - i,
    {
        if s.get_char(i) != p.get_char(i) {
            assert(s@.take(n as int)[i as int] != p@[i as int]);
            return false;
        }
        i += 1;
    }
    assert(s@.take(n as int) =~= p@);
    true
}

/// Whether `a` and `b` hold the same characters.
pub fn same_str(a: &str, b: &str) -> (r: bool)
    ensures
        r == (a@ == b@),
{
    if a.unicode_len() != b.unicode_len() {
        return false;
    }
    assert(a@ =~= a@.take(b@.len() as int));
    starts_with(a, b)
}

/// `s` from its `k`th character on.
pub(crate) fn rest_from<'a>(s: &'a str, k: usize) -> (r: &'a str)
    requires
        k <= s@.len(),
    ensures
        r@ == s@.skip(k as int),
{
    let n = s.unicode_len();
    s.substring_char(k, n)
}

/// The end of the run of whitespace from `i` on.
pub(crate) fn ws_end(s: &str, i: usize) -> (r: usize)
    requires
        i <= s@.len(),
    ensures
        r == span(s@, i as int, ws_pred()),
{
    let n = s.unicode_len();
    let mut j = i;
    while j < n
        invariant
            n == s@.len(),
            i <= j <= n,
            span(s@, i as int, ws_pred()) == span(s@, j as int, ws_pred()),
        ensures
            span(s@, i as int, ws_pred()) == j,
        decreases n - j,
    {
        let c = s.get_char(j);
        if !whitespace_char(c) {
            assert(!ws_pred()(c));
            assert(span(s@, j as int, ws_pred()) == j);
            break;
        }
        assert(ws_pred()(c));
        j += 1;
    }
    j
}

/// `a` without its leading whitespace; a string of whitespace alone keeps
/// its last character.
pub fn whitespace(a: &str) -> (r: &str)
    ensures
        r@ == skip_ws(a@),
{
    let n = a.unicode_len();
    let k = ws_end(a, 0);
    if k < n {
        rest_from(a, k)
    } else if n > 0 {
        rest_from(a, n - 1)
    } else {
        a
    }
}

/// At least one whitespace character, then any more: what follows them.
pub fn whitespace1(input: &str) -> (r: Option<&str>)
    ensures
        r matches Some(s) ==> skip_ws1(input@) == Some(s@),
        r is None ==> skip_ws1(input@) is None,
{
    if input.unicode_len() == 0 || !whitespace_char(input.get_char(0)) {
        return None;
    }
    Some(whitespace(rest_from(input, 1)))
}

/// A comma, with optional whitespace around it: what follows.
pub fn pcomma(input: &str) -> (r: Option<&str>)
    ensures
        r matches Some(s) ==> after_comma(input@) == Some(s@),
        r is None ==> after_comma(input@) is None,
{
    let t = whitespace(input);
    if t.unicode_len() > 0 && t.get_char(0) == ',' {
        Some(whitespace(rest_from(t, 1)))
    } else {
        None
    }
}

/// The number of characters of `s` before its first `c`, or its length.
pub(crate) fn find(s: &str, c: char) -> (r: usize)
    ensures
        r == find_char(s@, c),
        r <= s@.len(),
{
    let n = s.unicode_len();
    let mut j: usize = 0;
    proof {
        lemma_span_bounds(s@, 0, not_char(c));
    }
    while j < n
        invariant
            n == s@.len(),
            j <= n,
            find_char(s@, c) == span(s@, j as int, not_char(c)),
        ensures
            find_char(s@, c) == j,
        decreases n - j,
    {
        let d = s.get_char(j);
        if d == c {
            assert(!not_char(c)(d));
            assert(span(s@, j as int, not_char(c)) == j);
            break;
        }
        assert(not_char(c)(d));
        j += 1;
    }
    j
}

pub(crate) fn hex_value(c: char) -> (r: u16)
    requires
        is_hex_char(c),
    ensures
        r == hex_val(c),
{
    if '0' <= c && c <= '9' {
        (c as u32 - 48) as u16
    } else if 'a' <= c && c <= 'f' {
        (c as u32 - 87) as u16
    } else {
        (c as u32 - 55) as u16
    }
}

proof fn lemma_hex_grows(s: Seq<char>, i: int, k: int)
    requires
        0 <= i <= k <= s.len(),
    ensures
        hex_acc(s, i) <= hex_acc(s, k),
    decreases k - i,
{
    if i < k {
        lemma_hex_grows(s, i, k - 1);
    }
}

/// A hexadecimal number after `0x` or `0X`; see [`hex_number`].
pub fn parse_hex(a: &str) -> (r: Option<(&str, u16)>)
    ensures
        r matches Some(p) ==> hex_number(a@) == Some((p.0@, p.1)),
        r is None ==> hex_number(a@) is None,
{
    let n = a.unicode_len();
    if n < 3 || a.get_char(0) != '0' || (a.get_char(1) != 'x' && a.get_char(1) != 'X') {
        return None;
    }
    let c = a.get_char(2);
    if !(('0' <= c && c <= '9') || ('a' <= c && c <= 'f') || ('A' <= c && c <= 'F')) {
        return None;
    }
    let t = rest_from(a, 2);
    let m = n - 2;
    let mut value: u16 = 0;
    let mut i: usize = 0;
    while i < m
        invariant
            m == t@.len(),
            i <= m,
            t@ == a@.skip(2),
            span(t@, 0, hex_pred()) == span(t@, i as int, hex_pred()),
            value == hex_acc(t@, i as int),
        ensures
            span(t@, 0, hex_pred()) == i,
            value == hex_acc(t@, i as int),
        decreases m - i,
    {
        let c = t.get_char(i);
        if !(('0' <= c && c <= '9') || ('a' <= c && c <= 'f') || ('A' <= c && c <= 'F')) {
            assert(!hex_pred()(c));
            assert(span(t@, i as int, hex_pred()) == i);
            break;
        }
        assert(hex_pred()(c));
        let d = hex_value(c);
        if value > 0xfff {
            proof {
                let k = span(t@, 0, hex_pred());
                lemma_span_bounds(t@, 0, hex_pred());
                assert(span(t@, i + 1, hex_pred()) == k);
                lemma_span_bounds(t@, i + 1, hex_pred());
                lemma_hex_grows(t@, i + 1, k);
            }
            return None;
        }
        value = value * 16 + d;
        i += 1;
    }
    Some((rest_from(t, i), value))
}

proof fn lemma_dec_grows(s: Seq<char>, i: int, k: int)
    requires
        0 <= i <= k <= s.len(),
        forall|j: int| 0 <= j < k ==> is_dec_char(#[trigger] s[j]),
    ensures
        dec_acc(s, i) <= dec_acc(s, k),
    decreases k - i,
{
    if i < k {
        lemma_dec_grows(s, i, k - 1);
    }
}

/// A decimal number of at most 65535; see [`dec_number`].
pub fn parse_dec(input: &str) -> (r: Option<(&str, u16)>)
    ensures
        r matches Some(p) ==> dec_number(input@) == Some((p.0@, p.1)),
        r is None ==> dec_number(input@) is None,
{
    let n = input.unicode_len();
    if n < 1 || !('0' <= input.get_char(0) && input.get_char(0) <= '9') {
        return None;
    }
    let s = Ghost(input@);
    let mut value: u16 = 0;
    let mut i: usize = 0;
    while i < n
        invariant
            n == s@.len(),
            s@ == input@,
            i <= n,
            span(s@, 0, dec_pred()) == span(s@, i as int, dec_pred()),
            forall|j: int| 0 <= j < i ==> is_dec_char(#[trigger] s@[j]),
            value == dec_acc(s@, i as int),
        ensures
            span(s@, 0, dec_pred()) == i,
            value == dec_acc(s@, i as int),
        decreases n - i,
    {
        let c = input.get_char(i);
        if !('0' <= c && c <= '9') {
            assert(!dec_pred()(c));
            assert(span(s@, i as int, dec_pred()) == i);
            break;
        }
        assert(dec_pred()(c));
        let d = (c as u32 - 48) as u16;
        if value > 6553 || (value == 6553 && d > 5) {
            proof {
                let k = span(s@, 0, dec_pred());
                lemma_span_bounds(s@, 0, dec_pred());
                assert(span(s@, i + 1, dec_pred()) == k);
                lemma_span_bounds(s@, i + 1, dec_pred());
                lemma_dec_grows(s@, i + 1, k);
            }
            return None;
        }
        value = value * 10 + d;
        i += 1;
    }
    Some((rest_from(input, i), value))
}

/// A hexadecimal number, or else a decimal one.
pub fn parse_num(input: &str) -> (r: Option<(&str, u16)>)
    ensures
        r matches Some(p) ==> number(input@) == Some((p.0@, p.1)),
        r is None ==> number(input@) is None,
{
    let n = input.unicode_len();
    if n >= 3 && input.get_char(0) == '0' && (input.get_char(1) == 'x' || input.get_char(1)
        == 'X') {
        let c = input.get_char(2);
        if ('0' <= c && c <= '9') || ('a' <= c && c <= 'f') || ('A' <= c && c <= 'F') {
            return parse_hex(input);
        }
    }
    parse_dec(input)
}

/// A name at the start of `input`; see [`name`]. Gives what follows and the
/// name.
pub fn parse_name(input: &str) -> (r: Option<(&str, &str)>)
    ensures
        r matches Some(p) ==> name(input@) == Some((p.0@, p.1@)),
        r is None ==> name(input@) is None,
{
    let n = input.unicode_len();
    let mut k: usize = 0;
    while k < n
        invariant
            n == input@.len(),
            k <= n,
            span(input@, 0, name_start_pred()) == span(input@, k as int, name_start_pred()),
        ensures
            k <= n,
            span(input@, 0, name_start_pred()) == k,
        decreases n - k,
    {
        let c = input.get_char(k);
        if c != '@' && c != '_' && !alphabetic_char(c) {
            assert(!name_start_pred()(c));
            assert(span(input@, k as int, name_start_pred()) == k);
            break;
        }
        assert(name_start_pred()(c));
        k += 1;
    }
    if k == 0 {
        return None;
    }
    let ghost k1 = k as int;
    while k < n
        invariant
            n == input@.len(),
            k1 <= k <= n,
            span(input@, k1, name_pred()) == span(input@, k as int, name_pred()),
        ensures
            k <= n,
            span(input@, k1, name_pred()) == k,
        decreases n - k,
    {
        let c = input.get_char(k);
        if c != '@' && c != '_' && !alphanumeric_char(c) {
            assert(!name_pred()(c));
            assert(span(input@, k as int, name_pred()) == k);
            break;
        }
        assert(name_pred()(c));
        k += 1;
    }
    Some((rest_from(input, k), input.substring_char(0, k)))
}

/// Removes a comment (from `;` on) and the whitespace around what is left.
pub fn strip_ws_comments(line: &str) -> (r: &str)
    ensures
        r@ == trimmed(line@.take(find_char(line@, ';'))),
{
    let end = find(line, ';');
    proof {
        lemma_span_bounds(line@, 0, not_char(';'));
    }
    let body = line.substring_char(0, end);
    let n = body.unicode_len();
    let start = ws_end(body, 0);
    proof {
        lemma_span_bounds(body@, 0, ws_pred());
    }
    let mut stop = n;
    while stop > start
        invariant
            start <= stop <= n,
            n == body@.len(),
            start == span(body@, 0, ws_pred()),
            trim_end(body@, stop as int) == trim_end(body@, n as int),
        ensures
            start <= stop <= n,
            trim_end(body@, stop as int) == trim_end(body@, n as int),
            stop == start || !is_ws(body@[stop - 1]),
        decreases stop,
    {
        if !whitespace_char(body.get_char(stop - 1)) {
            break;
        }
        stop -= 1;
    }
    proof {
        lemma_trim_end(body@, stop as int, start as int);
    }
    body.substring_char(start, stop)
}

/// The end of `s.take(k)` once trailing whitespace is dropped.
pub open spec fn trim_end(s: Seq<char>, k: int) -> int
    decreases k,
{
    if k > 0 && is_ws(s[k - 1]) {
        trim_end(s, k - 1)
    } else {
        k
    }
}

/// `s` without whitespace at either end.
pub open spec fn trimmed(s: Seq<char>) -> Seq<char> {
    let start = span(s, 0, ws_pred());
    if start == s.len() {
        Seq::empty()
    } else {
        s.subrange(start, trim_end(s, s.len() as int))
    }
}

proof fn lemma_trim_end(s: Seq<char>, stop: int, start: int)
    requires
        0 <= start <= stop <= s.len(),
        start == span(s, 0, ws_pred()),
        trim_end(s, stop) == trim_end(s, s.len() as int),
        stop == start || !is_ws(s[stop - 1]),
    ensures
        s.subrange(start, stop) == trimmed(s),
{
    lemma_span_bounds(s, 0, ws_pred());
    if start == s.len() {
        assert(s.subrange(start, stop) =~= Seq::<char>::empty());
    } else {
        lemma_trim_end_above(s, s.len() as int, start);
        lemma_trim_end_below(s, stop);
        assert(trim_end(s, stop) == stop);
    }
}

proof fn lemma_trim_end_below(s: Seq<char>, k: int)
    ensures
        trim_end(s, k) <= k,
    decreases k,
{
    if k > 0 && is_ws(s[k - 1]) {
        lemma_trim_end_below(s, k - 1);
    }
}

proof fn lemma_trim_end_above(s: Seq<char>, k: int, i: int)
    requires
        0 <= i < k <= s.len(),
        !is_ws(s[i]),
    ensures
        trim_end(s, k) > i,
    decreases k,
{
    if k - 1 > i && is_ws(s[k - 1]) {
        lemma_trim_end_above(s, k - 1, i);
    }
}

} // verus!
