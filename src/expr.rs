use vstd::prelude::*;

use crate::parse::{
    dec_pred, find, find_char, hex_pred, is_ws, lemma_span_bounds, name, name_pred, name_start_pred,
    number, parse_name, parse_num, rest_from, same_str, skip_ws, span, whitespace, whitespace_char,
    ws_pred,
};

verus! {

/// A value that is either known, or still an expression to evaluate.
#[derive(Debug, PartialEq, Eq)]
pub enum Value<'a, T> {
    Complete(T),
    Partial(&'a str),
}

/// A [`Value`] with its text as characters.
pub enum ValueView<T> {
    Complete(T),
    Partial(Seq<char>),
}

impl<'a, T> Value<'a, T> {
    pub open spec fn view(self) -> ValueView<T> {
        match self {
            Value::Complete(v) => ValueView::Complete(v),
            Value::Partial(e) => ValueView::Partial(e@),
        }
    }
}

/// The value of a 16-bit value in table `t`: an expression is evaluated
/// following definitions at most as many levels deep as `t` has names.
pub open spec fn value16(v: ValueView<u16>, t: Seq<(Seq<char>, ValueView<u16>)>) -> Option<u16> {
    match v {
        ValueView::Complete(n) => Some(n),
        ValueView::Partial(e) => expr(e, t, t.len()),
    }
}

/// The value of an 8-bit value in table `t`: the low byte of the value of
/// its expression.
pub open spec fn value8(v: ValueView<u8>, t: Seq<(Seq<char>, ValueView<u16>)>) -> Option<u8> {
    match v {
        ValueView::Complete(n) => Some(n),
        ValueView::Partial(e) => match expr(e, t, t.len()) {
            Some(x) => Some((x % 256) as u8),
            None => None,
        },
    }
}

impl<'a, T> From<T> for Value<'a, T> {
    fn from(v: T) -> (r: Self)
        ensures
            r == Value::<'a, T>::Complete(v),
    {
        Value::Complete(v)
    }
}

impl<'a, T> vstd::std_specs::convert::FromSpecImpl<T> for Value<'a, T> {
    open spec fn obeys_from_spec() -> bool {
        true
    }

    open spec fn from_spec(v: T) -> Self {
        Value::Complete(v)
    }
}

/// Names and their values. A name appears at most once.
pub struct SymbolTable<'a> {
    entries: Vec<(&'a str, Value<'a, u16>)>,
}

/// Whether no name appears twice.
pub open spec fn unique_names(e: Seq<(Seq<char>, ValueView<u16>)>) -> bool {
    forall|i: int, j: int| 0 <= i < j < e.len() ==> e[i].0 != e[j].0
}

/// `t` with `n` given the value `v`, in place of any value it had.
pub open spec fn table_insert(t: Seq<(Seq<char>, ValueView<u16>)>, n: Seq<char>, v: ValueView<u16>) -> Seq<
    (Seq<char>, ValueView<u16>),
> {
    if exists|i: int| 0 <= i < t.len() && t[i].0 == n {
        t.update(choose|i: int| 0 <= i < t.len() && t[i].0 == n, (n, v))
    } else {
        t.push((n, v))
    }
}

/// The value `t` gives the name `n`.
pub open spec fn lookup(t: Seq<(Seq<char>, ValueView<u16>)>, n: Seq<char>) -> Option<
    ValueView<u16>,
> {
    if exists|i: int| 0 <= i < t.len() && t[i].0 == n {
        Some(t[choose|i: int| 0 <= i < t.len() && t[i].0 == n].1)
    } else {
        None
    }
}

impl<'a> View for SymbolTable<'a> {
    type V = Seq<(Seq<char>, ValueView<u16>)>;

    closed spec fn view(&self) -> Seq<(Seq<char>, ValueView<u16>)> {
        self.entries@.map_values(|e: (&'a str, Value<'a, u16>)| (e.0@, e.1.view()))
    }
}

impl<'a> SymbolTable<'a> {
    pub open spec fn wf(&self) -> bool {
        unique_names(self@)
    }

    pub fn new() -> (r: Self)
        ensures
            r.wf(),
            r@.len() == 0,
    {
        SymbolTable { entries: Vec::new() }
    }

    /// The number of names.
    pub fn len(&self) -> (r: usize)
        ensures
            r == self@.len(),
    {
        self.entries.len()
    }

    fn position(&self, n: &str) -> (r: Option<usize>)
        requires
            self.wf(),
        ensures
            r matches Some(i) ==> i < self@.len() && self@[i as int].0 == n@,
            r is None ==> forall|i: int| 0 <= i < self@.len() ==> self@[i].0 != n@,
    {
        let mut i: usize = 0;
        while i < self.entries.len()
            invariant
                i <= self.entries@.len(),
                self@.len() == self.entries@.len(),
                forall|j: int| 0 <= j < i ==> self@[j].0 != n@,
            decreases self.entries@.len() - i,
        {
            if same_str(self.entries[i].0, n) {
                return Some(i);
            }
            i += 1;
        }
        None
    }

    /// The value of `n`, if it has one.
    pub fn get(&self, n: &str) -> (r: Option<&Value<'a, u16>>)
        requires
            self.wf(),
        ensures
            r matches Some(v) ==> lookup(self@, n@) == Some(v.view()),
            r is None ==> lookup(self@, n@) is None,
    {
        match self.position(n) {
            Some(i) => {
                proof {
                    let c = choose|j: int| 0 <= j < self@.len() && self@[j].0 == n@;
                    assert(c == i);
                }
                Some(&self.entries[i].1)
            },
            None => None,
        }
    }

    /// Gives `n` the value `v`, in place of any value it had.
    pub fn insert(&mut self, n: &'a str, v: Value<'a, u16>)
        requires
            old(self).wf(),
        ensures
            final(self).wf(),
            final(self)@ == table_insert(old(self)@, n@, v.view()),
            lookup(final(self)@, n@) == Some(v.view()),
            forall|m: Seq<char>| m != n@ ==> lookup(final(self)@, m) == lookup(old(self)@, m),
            final(self)@.len() <= old(self)@.len() + 1,
    {
        let ghost pre = self@;
        let ghost mut idx: int = 0;
        match self.position(n) {
            Some(i) => {
                self.entries.set(i, (n, v));
                assert(self@ =~= pre.update(i as int, (n@, v.view())));
                proof {
                    idx = i as int;
                }
            },
            None => {
                self.entries.push((n, v));
                assert(self@ =~= pre.push((n@, v.view())));
                proof {
                    idx = pre.len() as int;
                }
            },
        }
        assert(self@[idx].0 == n@ && self@[idx].1 == v.view());
        proof {
            let post = self@;
            if exists|i: int| 0 <= i < pre.len() && pre[i].0 == n@ {
                let c = choose|i: int| 0 <= i < pre.len() && pre[i].0 == n@;
                assert(c == idx);
            }
            assert(post == table_insert(pre, n@, v.view()));
        }
        proof {
            let post = self@;
            assert forall|m: Seq<char>| m != n@ implies lookup(post, m) == lookup(pre, m) by {
                if exists|i: int| 0 <= i < pre.len() && pre[i].0 == m {
                    let c = choose|i: int| 0 <= i < pre.len() && pre[i].0 == m;
                    assert(post[c].0 == m);
                    let d = choose|i: int| 0 <= i < post.len() && post[i].0 == m;
                    assert(d == c);
                } else {
                    assert forall|i: int| 0 <= i < post.len() implies post[i].0 != m by {
                        if i < pre.len() {
                            assert(pre[i].0 != m);
                        }
                    }
                }
            }
            let d = choose|i: int| 0 <= i < post.len() && post[i].0 == n@;
            assert(d == idx);
        }
    }
}

/// The entries of `t` whose values evaluate, each with its value: the first
/// `k` of them.
pub open spec fn resolved_upto(t: Seq<(Seq<char>, ValueView<u16>)>, k: int) -> Seq<
    (Seq<char>, ValueView<u16>),
>
    decreases k,
{
    if k <= 0 {
        Seq::empty()
    } else {
        let r = resolved_upto(t, k - 1);
        match value16(t[k - 1].1, t) {
            Some(x) => r.push((t[k - 1].0, ValueView::Complete(x))),
            None => r,
        }
    }
}

pub open spec fn resolved(t: Seq<(Seq<char>, ValueView<u16>)>) -> Seq<(Seq<char>, ValueView<u16>)> {
    resolved_upto(t, t.len() as int)
}

proof fn lemma_resolved_names(t: Seq<(Seq<char>, ValueView<u16>)>, k: int)
    requires
        0 <= k <= t.len(),
    ensures
        forall|j: int|
            0 <= j < resolved_upto(t, k).len() ==> exists|i: int|
                0 <= i < k && #[trigger] resolved_upto(t, k)[j].0 == t[i].0,
        unique_names(t) ==> unique_names(resolved_upto(t, k)),
    decreases k,
{
    if k > 0 {
        lemma_resolved_names(t, k - 1);
        let r = resolved_upto(t, k - 1);
        let rk = resolved_upto(t, k);
        assert forall|j: int| 0 <= j < rk.len() implies exists|i: int|
            0 <= i < k && #[trigger] rk[j].0 == t[i].0 by {
            if j < r.len() {
                assert(rk[j] == r[j]);
                let i = choose|i: int| 0 <= i < k - 1 && #[trigger] r[j].0 == t[i].0;
                assert(rk[j].0 == t[i].0);
            } else {
                assert(rk[j].0 == t[k - 1].0);
            }
        }
        if unique_names(t) {
            assert forall|i: int, j: int| 0 <= i < j < rk.len() implies rk[i].0 != rk[j].0 by {
                if j == r.len() && value16(t[k - 1].1, t) is Some {
                    let a = choose|a: int| 0 <= a < k - 1 && #[trigger] r[i].0 == t[a].0;
                    assert(rk[i] == r[i]);
                }
            }
        }
    }
}

impl<'a> SymbolTable<'a> {
    /// The names whose values evaluate, each with its value; see
    /// [`resolved`].
    pub fn resolve(&self) -> (r: SymbolTable<'a>)
        requires
            self.wf(),
        ensures
            r.wf(),
            r@ == resolved(self@),
    {
        let mut out = SymbolTable::new();
        let mut k: usize = 0;
        while k < self.entries.len()
            invariant
                self.wf(),
                k <= self.entries@.len(),
                self@.len() == self.entries@.len(),
                out.wf(),
                out@ == resolved_upto(self@, k as int),
            decreases self.entries@.len() - k,
        {
            let (n, v) = &self.entries[k];
            proof {
                assert(self@[k as int] == (n@, v.view()));
                lemma_resolved_names(self@, k as int);
                lemma_resolved_names(self@, k as int + 1);
            }
            match v.consume(self) {
                Some(x) => {
                    proof {
                        assert forall|j: int| 0 <= j < out@.len() implies out@[j].0 != n@ by {
                            let i = choose|i: int|
                                0 <= i < k && #[trigger] resolved_upto(self@, k as int)[j].0 == self@[i].0;
                        }
                    }
                    out.insert(n, Value::Complete(x));
                    proof {
                        assert(!(exists|i: int| 0 <= i < resolved_upto(self@, k as int).len()
                            && resolved_upto(self@, k as int)[i].0 == n@));
                    }
                },
                None => {},
            }
            k += 1;
        }
        out
    }
}

/// The first term of an expression: `.` followed by whitespace (the value of
/// the name `.`), a name (its value), or a number. Gives what follows and the
/// value. Each definition that is an expression costs one unit of `fuel`.
pub open spec fn term(s: Seq<char>, t: Seq<(Seq<char>, ValueView<u16>)>, fuel: nat) -> Option<
    (Seq<char>, u16),
>
    decreases fuel, 1nat, 0nat,
{
    if s.len() >= 2 && s[0] == '.' && is_ws(s[1]) {
        match lookup(t, seq!['.']) {
            Some(v) => match value_of(v, t, fuel) {
                Some(n) => Some((s.skip(1), n)),
                None => None,
            },
            None => None,
        }
    } else {
        match name(s) {
            Some((rest, nm)) => match lookup(t, nm) {
                Some(v) => match value_of(v, t, fuel) {
                    Some(n) => Some((rest, n)),
                    None => None,
                },
                None => None,
            },
            None => number(s),
        }
    }
}

/// The value of a definition.
pub open spec fn value_of(v: ValueView<u16>, t: Seq<(Seq<char>, ValueView<u16>)>, fuel: nat) -> Option<
    u16,
>
    decreases fuel, 0nat, 0nat,
{
    match v {
        ValueView::Complete(n) => Some(n),
        ValueView::Partial(e) => if fuel == 0 {
            None
        } else {
            expr(e, t, (fuel - 1) as nat)
        },
    }
}

/// An expression: terms joined by `+` or `-`, with optional whitespace,
/// added and subtracted modulo 2^16 from the left.
pub open spec fn expr(s: Seq<char>, t: Seq<(Seq<char>, ValueView<u16>)>, fuel: nat) -> Option<u16>
    decreases fuel, 3nat, 0nat,
{
    match term(s, t, fuel) {
        Some((rest, v)) => more_terms(skip_ws(rest), t, fuel, v),
        None => None,
    }
}

/// The rest of an expression after a value `acc`.
pub open spec fn more_terms(
    s: Seq<char>,
    t: Seq<(Seq<char>, ValueView<u16>)>,
    fuel: nat,
    acc: u16,
) -> Option<u16>
    decreases fuel, 2nat, s.len(),
{
    if s.len() > 0 && (s[0] == '+' || s[0] == '-') {
        match term(skip_ws(s.skip(1)), t, fuel) {
            Some((rest, v)) => {
                let next = if s[0] == '-' {
                    ((acc - v + 0x10000) % 0x10000) as u16
                } else {
                    ((acc + v) % 0x10000) as u16
                };
                if skip_ws(rest).len() < s.len() {
                    more_terms(skip_ws(rest), t, fuel, next)
                } else {
                    None
                }
            },
            None => None,
        }
    } else {
        Some(acc)
    }
}

/// An expression: everything up to the first comma, if anything.
pub open spec fn expr_text(s: Seq<char>) -> Option<Seq<char>> {
    if s.len() == 0 {
        None
    } else {
        Some(s.take(find_char(s, ',')))
    }
}

/// The text of an expression: `input` up to its first comma. `None` on an
/// empty input.
pub fn pexpr<'a, T>(input: &'a str) -> (r: Option<Value<'a, T>>)
    ensures
        r matches Some(v) ==> v matches Value::Partial(e) && expr_text(input@) == Some(e@),
        r is None ==> expr_text(input@) is None,
{
    let n = input.unicode_len();
    if n == 0 {
        return None;
    }
    let end = find(input, ',');
    Some(Value::Partial(input.substring_char(0, end)))
}


proof fn lemma_skip_ws_len(s: Seq<char>)
    ensures
        skip_ws(s).len() <= s.len(),
{
    lemma_span_bounds(s, 0, ws_pred());
}

/// A term leaves no more input than it was given.
proof fn lemma_term_rest(s: Seq<char>, t: Seq<(Seq<char>, ValueView<u16>)>, fuel: nat)
    ensures
        term(s, t, fuel) matches Some(p) ==> p.0.len() <= s.len(),
{
    lemma_span_bounds(s, 0, name_start_pred());
    let k1 = span(s, 0, name_start_pred());
    lemma_span_bounds(s, k1, name_pred());
    lemma_span_bounds(s, 0, dec_pred());
    if s.len() >= 2 {
        lemma_span_bounds(s.skip(2), 0, hex_pred());
    }
}

/// The value of the first term of `input`; see [`term`].
fn term_at<'a, 'b>(input: &'b str, table: &SymbolTable<'a>, fuel: usize) -> (r: Option<
    (&'b str, u16),
>)
    requires
        table.wf(),
    ensures
        r matches Some(p) ==> term(input@, table@, fuel as nat) == Some((p.0@, p.1)),
        r is None ==> term(input@, table@, fuel as nat) is None,
    decreases fuel, 1nat,
{
    let n = input.unicode_len();
    if n >= 2 && input.get_char(0) == '.' && whitespace_char(input.get_char(1)) {
        proof {
            reveal_strlit(".");
            assert("."@ =~= seq!['.']);
        }
        match table.get(".") {
            Some(v) => match value_at(v, table, fuel) {
                Some(x) => Some((rest_from(input, 1), x)),
                None => None,
            },
            None => None,
        }
    } else {
        match parse_name(input) {
            Some((rest, nm)) => match table.get(nm) {
                Some(v) => match value_at(v, table, fuel) {
                    Some(x) => Some((rest, x)),
                    None => None,
                },
                None => None,
            },
            None => parse_num(input),
        }
    }
}

/// The value of a definition; see [`value_of`].
fn value_at<'a>(v: &Value<'a, u16>, table: &SymbolTable<'a>, fuel: usize) -> (r: Option<u16>)
    requires
        table.wf(),
    ensures
        r == value_of(v.view(), table@, fuel as nat),
    decreases fuel, 0nat,
{
    match v {
        Value::Complete(x) => Some(*x),
        Value::Partial(e) => {
            if fuel == 0 {
                None
            } else {
                expr_at(e, table, fuel - 1)
            }
        },
    }
}

/// The value of an expression; see [`expr`].
#[verifier::rlimit(80)]
fn expr_at<'a, 'b>(s: &'b str, table: &SymbolTable<'a>, fuel: usize) -> (r: Option<u16>)
    requires
        table.wf(),
    ensures
        r == expr(s@, table@, fuel as nat),
    decreases fuel, 3nat,
{
    let (rest, first) = match term_at(s, table, fuel) {
        Some(p) => p,
        None => {
            return None;
        },
    };
    let mut value = first;
    let mut input = whitespace(rest);
    loop
        invariant
            table.wf(),
            expr(s@, table@, fuel as nat) == more_terms(input@, table@, fuel as nat, value),
        decreases input@.len(),
    {
        let n = input.unicode_len();
        if n == 0 {
            return Some(value);
        }
        let c = input.get_char(0);
        if c != '+' && c != '-' {
            return Some(value);
        }
        let after = whitespace(rest_from(input, 1));
        match term_at(after, table, fuel) {
            Some((r2, v)) => {
                proof {
                    lemma_skip_ws_len(input@.skip(1));
                    lemma_term_rest(after@, table@, fuel as nat);
                    lemma_skip_ws_len(r2@);
                }
                value = if c == '-' {
                    value.wrapping_sub(v)
                } else {
                    value.wrapping_add(v)
                };
                input = whitespace(r2);
            },
            None => {
                return None;
            },
        }
    }
}

/// The value of the term at the start of `input` (see [`term`]), following
/// definitions at most as many levels deep as `table` has names. Gives what
/// follows and the value.
pub fn parse_const<'a, 'b>(input: &'b str, table: &SymbolTable<'a>) -> (r: Option<(&'b str, u16)>)
    requires
        table.wf(),
    ensures
        r matches Some(p) ==> term(input@, table@, table@.len()) == Some((p.0@, p.1)),
        r is None ==> term(input@, table@, table@.len()) is None,
{
    term_at(input, table, table.len())
}

impl<'a> Value<'a, u16> {
    /// The value, evaluating an expression in `table`.
    pub fn consume(&self, table: &SymbolTable<'_>) -> (r: Option<u16>)
        requires
            table.wf(),
        ensures
            r == value16(self.view(), table@),
    {
        match self {
            Value::Complete(t) => Some(*t),
            Value::Partial(e) => expr_at(e, table, table.len()),
        }
    }
}

impl<'a> Value<'a, u8> {
    /// The value, evaluating an expression in `table` and keeping its low
    /// byte.
    pub fn consume(&self, table: &SymbolTable<'_>) -> (r: Option<u8>)
        requires
            table.wf(),
        ensures
            r == value8(self.view(), table@),
    {
        match self {
            Value::Complete(t) => Some(*t),
            Value::Partial(e) => match expr_at(e, table, table.len()) {
                Some(x) => Some((x % 256) as u8),
                None => None,
            },
        }
    }
}

} // verus!
