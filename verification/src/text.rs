//! Character-level helpers for building text.

use vstd::prelude::*;

verus! {

/// The characters of a string slice, in order.
pub fn str_chars(s: &str) -> (r: Vec<char>)
    ensures
        r@ == s@,
{
    let mut out: Vec<char> = Vec::new();
    for c in it: s.chars()
        invariant
            out@ == it.seq().take(it.index() as int),
            it.seq() == s@,
    {
        out.push(c);
    }
    out
}

/// Appends the characters of `s` to `out`.
pub fn push_str(out: &mut Vec<char>, s: &str)
    ensures
        final(out)@ == old(out)@ + s@,
{
    let ghost start = out@;
    for c in it: s.chars()
        invariant
            out@ == start + it.seq().take(it.index() as int),
            it.seq() == s@,
    {
        out.push(c);
    }
    proof {
        assert(s@.take(s@.len() as int) =~= s@);
    }
}

/// `String::from_iter`: the string made of the characters of `v`.
#[verifier::external_body]
pub(crate) fn chars_to_string(v: &Vec<char>) -> (r: String)
    ensures
        r@ == v@,
{
    v.iter().collect()
}

/// Whether `v` holds `c`.
pub fn vec_contains(v: &Vec<char>, c: char) -> (r: bool)
    ensures
        r == v@.contains(c),
{
    let mut i: usize = 0;
    while i < v.len()
        invariant
            i <= v.len(),
            forall|k: int| 0 <= k < i ==> v@[k] != c,
        decreases v.len() - i,
    {
        if v[i] == c {
            assert(v@[i as int] == c);
            return true;
        }
        i = i + 1;
    }
    false
}

/// The character of a decimal digit.
pub open spec fn digit_char(d: int) -> char {
    (48 + d) as char
}

/// The decimal digits of `n`, most significant first, without leading zeros.
pub open spec fn digits_of(n: nat) -> Seq<char>
    decreases n,
{
    if n < 10 {
        seq![digit_char(n as int)]
    } else {
        digits_of(n / 10).push(digit_char((n % 10) as int))
    }
}

/// `v` in decimal, with a leading `-` when negative (as `{}` writes it).
pub open spec fn dec(v: int) -> Seq<char> {
    if v < 0 {
        seq!['-'] + digits_of((-v) as nat)
    } else {
        digits_of(v as nat)
    }
}

/// `s` padded with spaces on the right to at least `w` characters (as `{:<w}` writes it).
pub open spec fn pad_right(s: Seq<char>, w: nat) -> Seq<char> {
    if s.len() >= w {
        s
    } else {
        s + Seq::new((w - s.len()) as nat, |i: int| ' ')
    }
}

/// The hexadecimal digit `d` in the given case.
pub open spec fn hex_char(d: int, upper: bool) -> char {
    if d < 10 {
        (48 + d) as char
    } else if upper {
        (55 + d) as char
    } else {
        (87 + d) as char
    }
}

/// The hexadecimal digits of `n`, most significant first, without leading zeros.
pub open spec fn hex_digits(n: nat, upper: bool) -> Seq<char>
    decreases n,
{
    if n < 16 {
        seq![hex_char(n as int, upper)]
    } else {
        hex_digits(n / 16, upper).push(hex_char((n % 16) as int, upper))
    }
}

/// `s` padded with zeros on the left to at least `w` characters (as `{:0w}` writes it).
pub open spec fn pad_zeros(s: Seq<char>, w: nat) -> Seq<char> {
    if s.len() >= w {
        s
    } else {
        Seq::new((w - s.len()) as nat, |i: int| '0') + s
    }
}

fn push_digits(out: &mut Vec<char>, n: u64)
    ensures
        final(out)@ == old(out)@ + digits_of(n as nat),
    decreases n,
{
    if n >= 10 {
        push_digits(out, n / 10);
    }
    let d = (n % 10) as u8;
    out.push((48u8 + d) as char);
    proof {
        if n >= 10 {
            assert(old(out)@ + digits_of(n as nat) =~= old(out)@ + digits_of((n / 10) as nat) + seq![
                digit_char((n % 10) as int),
            ]);
        } else {
            assert(old(out)@ + digits_of(n as nat) =~= old(out)@ + seq![digit_char(n as int)]);
        }
    }
}

/// Appends `n` in decimal.
pub fn push_u64(out: &mut Vec<char>, n: u64)
    ensures
        final(out)@ == old(out)@ + dec(n as int),
{
    push_digits(out, n);
}

/// Appends `v` in decimal.
pub fn push_i64(out: &mut Vec<char>, v: i64)
    ensures
        final(out)@ == old(out)@ + dec(v as int),
{
    if v < 0 {
        out.push('-');
        let m: u64 = if v == i64::MIN {
            0x8000_0000_0000_0000u64
        } else {
            (-v) as u64
        };
        push_digits(out, m);
        assert(old(out)@ + dec(v as int) =~= old(out)@.push('-') + digits_of(m as nat));
    } else {
        push_digits(out, v as u64);
    }
}

/// Appends `v` in decimal, padded with spaces on the right to `w` characters.
pub fn push_i64_padded(out: &mut Vec<char>, v: i64, w: usize)
    ensures
        final(out)@ == old(out)@ + pad_right(dec(v as int), w as nat),
{
    let mut tmp: Vec<char> = Vec::new();
    push_i64(&mut tmp, v);
    assert(tmp@ =~= dec(v as int));
    let ghost start = out@;
    let mut i: usize = 0;
    while i < tmp.len()
        invariant
            i <= tmp.len(),
            out@ == start + tmp@.take(i as int),
        decreases tmp.len() - i,
    {
        out.push(tmp[i]);
        assert(tmp@.take(i + 1) =~= tmp@.take(i as int).push(tmp@[i as int]));
        i = i + 1;
    }
    assert(tmp@.take(tmp.len() as int) =~= tmp@);
    let mut k: usize = tmp.len();
    while k < w
        invariant
            tmp.len() <= k <= w || (k == tmp.len() && tmp.len() > w),
            out@ == start + tmp@ + Seq::new((k - tmp.len()) as nat, |j: int| ' '),
        decreases w - k,
    {
        out.push(' ');
        assert(out@ =~= start + tmp@ + Seq::new((k + 1 - tmp.len()) as nat, |j: int| ' '));
        k = k + 1;
    }
    assert(out@ =~= start + pad_right(tmp@, w as nat));
}

fn push_hex_digits(out: &mut Vec<char>, n: u64, upper: bool)
    ensures
        final(out)@ == old(out)@ + hex_digits(n as nat, upper),
    decreases n,
{
    if n >= 16 {
        push_hex_digits(out, n / 16, upper);
    }
    let d = (n % 16) as u8;
    let c: u8 = if d < 10 {
        48u8 + d
    } else if upper {
        55u8 + d
    } else {
        87u8 + d
    };
    out.push(c as char);
    proof {
        if n >= 16 {
            assert(old(out)@ + hex_digits(n as nat, upper) =~= old(out)@ + hex_digits(
                (n / 16) as nat,
                upper,
            ) + seq![hex_char((n % 16) as int, upper)]);
        } else {
            assert(old(out)@ + hex_digits(n as nat, upper) =~= old(out)@ + seq![
                hex_char(n as int, upper),
            ]);
        }
    }
}

/// Appends `n` in hexadecimal, zero-padded on the left to `w` digits.
pub fn push_hex_padded(out: &mut Vec<char>, n: u64, w: usize, upper: bool)
    ensures
        final(out)@ == old(out)@ + pad_zeros(hex_digits(n as nat, upper), w as nat),
{
    let mut tmp: Vec<char> = Vec::new();
    push_hex_digits(&mut tmp, n, upper);
    assert(tmp@ =~= hex_digits(n as nat, upper));
    let ghost start = out@;
    let mut k: usize = tmp.len();
    while k < w
        invariant
            tmp.len() <= k,
            k <= w || k == tmp.len(),
            out@ == start + Seq::new((k - tmp.len()) as nat, |j: int| '0'),
        decreases w - k,
    {
        out.push('0');
        assert(out@ =~= start + Seq::new((k + 1 - tmp.len()) as nat, |j: int| '0'));
        k = k + 1;
    }
    let ghost mid = out@;
    let mut i: usize = 0;
    while i < tmp.len()
        invariant
            i <= tmp.len(),
            out@ == mid + tmp@.take(i as int),
        decreases tmp.len() - i,
    {
        out.push(tmp[i]);
        assert(tmp@.take(i + 1) =~= tmp@.take(i as int).push(tmp@[i as int]));
        i = i + 1;
    }
    assert(tmp@.take(tmp.len() as int) =~= tmp@);
    assert(out@ =~= start + pad_zeros(tmp@, w as nat));
}

/// Appends the characters of `s`.
pub fn push_chars(out: &mut Vec<char>, s: &Vec<char>)
    ensures
        final(out)@ == old(out)@ + s@,
{
    let ghost start = out@;
    let mut i: usize = 0;
    while i < s.len()
        invariant
            i <= s.len(),
            out@ == start + s@.take(i as int),
        decreases s.len() - i,
    {
        out.push(s[i]);
        assert(s@.take(i + 1) =~= s@.take(i as int).push(s@[i as int]));
        i = i + 1;
    }
    assert(s@.take(s.len() as int) =~= s@);
}

/// A Unicode scalar value: a code point that is not a surrogate.
pub open spec fn is_scalar_value(v: int) -> bool {
    (0 <= v < 0xD800) || (0xE000 <= v <= 0x10FFFF)
}

/// `char::from_u32`: the character with code `v`, or `None` when `v` is not a
/// Unicode scalar value.
#[verifier::external_body]
pub(crate) fn char_from_u32(v: u32) -> (r: Option<char>)
    ensures
        r == if is_scalar_value(v as int) {
            Some(v as char)
        } else {
            None::<char>
        },
{
    char::from_u32(v)
}

} // verus!
