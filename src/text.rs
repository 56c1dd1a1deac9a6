use vstd::prelude::*;

verus! {

/// The hexadecimal digit for `d` (below 16), in upper or lower case.
pub open spec fn hex_digit(d: nat, upper: bool) -> char {
    if d < 10 {
        (48 + d) as char
    } else if upper {
        (55 + d) as char
    } else {
        (87 + d) as char
    }
}

/// `v` in hexadecimal, without leading zeros.
pub open spec fn hex_of(v: nat, upper: bool) -> Seq<char>
    decreases v,
{
    if v < 16 {
        seq![hex_digit(v, upper)]
    } else {
        hex_of(v / 16, upper).push(hex_digit(v % 16, upper))
    }
}

/// `v` in hexadecimal, with leading zeros up to `width` digits.
pub open spec fn hex_padded(v: nat, width: nat, upper: bool) -> Seq<char> {
    let h = hex_of(v, upper);
    let pad: nat = if h.len() < width {
        (width - h.len()) as nat
    } else {
        0
    };
    Seq::new(pad, |i: int| '0') + h
}

/// Relies on `FromIterator<char> for String`: the string holds the
/// characters in order.
#[verifier::external_body]
fn string_of(chars: &Vec<char>) -> (r: String)
    ensures
        r@ == chars@,
{
    chars.iter().collect()
}

fn digit(d: u16, upper: bool) -> (c: char)
    requires
        d < 16,
    ensures
        c == hex_digit(d as nat, upper),
{
    if d < 10 {
        (48 + d as u8) as char
    } else if upper {
        (55 + d as u8) as char
    } else {
        (87 + d as u8) as char
    }
}

proof fn lemma_hex_len(v: nat, upper: bool)
    ensures
        1 <= hex_of(v, upper).len() <= 4 || v >= 0x10000,
        v < 0x10000 ==> hex_of(v, upper).len() <= 4,
        v < 0x1000 ==> hex_of(v, upper).len() <= 3,
        v < 0x100 ==> hex_of(v, upper).len() <= 2,
        hex_of(v, upper).len() >= 1,
    decreases v,
{
    if v >= 16 {
        lemma_hex_len(v / 16, upper);
    }
}

/// `v` in hexadecimal, with leading zeros up to `width` digits.
pub fn hex(v: u16, width: usize, upper: bool) -> (r: String)
    requires
        width <= 4,
    ensures
        r@ == hex_padded(v as nat, width as nat, upper),
{
    proof {
        lemma_hex_len(v as nat, upper);
    }
    // Digits come out least significant first.
    let mut digits: Vec<char> = Vec::new();
    digits.push(digit(v % 16, upper));
    let mut rest: u16 = v / 16;
    assert(digits@.reverse() =~= seq![hex_digit((v % 16) as nat, upper)]);
    while rest > 0
        invariant
            hex_of(v as nat, upper).len() <= 4,
            hex_of(v as nat, upper) == (if rest > 0 {
                hex_of(rest as nat, upper)
            } else {
                Seq::<char>::empty()
            }) + digits@.reverse(),
        decreases rest,
    {
        proof {
            lemma_hex_len(rest as nat, upper);
        }
        let d = digit(rest % 16, upper);
        let ghost before = digits@;
        digits.push(d);
        proof {
            assert(digits@.reverse() =~= seq![d] + before.reverse());
            if rest >= 16 {
                assert(hex_of(rest as nat, upper) == hex_of((rest / 16) as nat, upper).push(d));
                assert(hex_of((rest / 16) as nat, upper).push(d) + before.reverse() =~= hex_of(
                    (rest / 16) as nat,
                    upper,
                ) + digits@.reverse());
            } else {
                assert(hex_of(rest as nat, upper) == seq![d]);
                assert(seq![d] + before.reverse() =~= Seq::<char>::empty() + digits@.reverse());
            }
        }
        rest = rest / 16;
    }
    assert(hex_of(v as nat, upper) =~= digits@.reverse());
    let ghost h = hex_of(v as nat, upper);
    assert(digits@.reverse() =~= Seq::new(0, |i: int| '0') + h);
    while digits.len() < width
        invariant
            width <= 4,
            h == hex_of(v as nat, upper),
            h.len() <= digits@.len(),
            h.len() < digits@.len() ==> digits@.len() <= width,
            digits@.reverse() == Seq::new((digits@.len() - h.len()) as nat, |i: int| '0') + h,
        decreases width - digits@.len(),
    {
        let ghost before = digits@;
        let ghost n = (before.len() - h.len()) as nat;
        digits.push('0');
        proof {
            assert(digits@.reverse() =~= seq!['0'] + before.reverse());
            assert(seq!['0'] + Seq::new(n, |i: int| '0') =~= Seq::new(n + 1, |i: int| '0'));
            assert(digits@.reverse() =~= Seq::new((digits@.len() - h.len()) as nat, |i: int| '0')
                + h);
        }
    }
    let mut out: Vec<char> = Vec::new();
    let mut k: usize = digits.len();
    while k > 0
        invariant
            k <= digits@.len(),
            out@ =~= digits@.reverse().subrange(0, (digits@.len() - k) as int),
        decreases k,
    {
        k -= 1;
        out.push(digits[k]);
    }
    assert(out@ =~= digits@.reverse());
    assert(out@ =~= hex_padded(v as nat, width as nat, upper));
    string_of(&out)
}

/// Appends `s` to `out`.
pub fn push_str(out: &mut String, s: &str)
    ensures
        final(out)@ == old(out)@ + s@,
{
    out.append(s);
}

} // verus!
