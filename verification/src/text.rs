//! Characters and character sequences: white space, trimming, prefixes, and
//! numbers written in decimal and hexadecimal.

use vstd::prelude::*;

verus! {

/// `String::push` appends the given character to the end of the string and
/// changes nothing else.
pub assume_specification[ String::push ](s: &mut String, c: char)
    ensures
        final(s)@ == old(s)@.push(c),
;

/// The characters that Unicode classes as white space (`White_Space`).
pub open spec fn is_white_space(c: char) -> bool {
    let u = c as u32;
    ||| 0x09 <= u <= 0x0D
    ||| u == 0x20
    ||| u == 0x85
    ||| u == 0xA0
    ||| u == 0x1680
    ||| 0x2000 <= u <= 0x200A
    ||| u == 0x2028
    ||| u == 0x2029
    ||| u == 0x202F
    ||| u == 0x205F
    ||| u == 0x3000
}

/// Whether `c` is white space.
pub fn is_whitespace(c: char) -> (b: bool)
    ensures
        b == is_white_space(c),
{
    let u: u32 = c as u32;
    (0x09 <= u && u <= 0x0D) || u == 0x20 || u == 0x85 || u == 0xA0 || u == 0x1680 || (0x2000 <= u
        && u <= 0x200A) || u == 0x2028 || u == 0x2029 || u == 0x202F || u == 0x205F || u == 0x3000
}

/// `s` without its leading white space.
pub open spec fn trim_start(s: Seq<char>) -> Seq<char>
    decreases s.len(),
{
    if s.len() > 0 && is_white_space(s[0]) {
        trim_start(s.drop_first())
    } else {
        s
    }
}

/// `s` without its trailing white space.
pub open spec fn trim_end(s: Seq<char>) -> Seq<char>
    decreases s.len(),
{
    if s.len() > 0 && is_white_space(s.last()) {
        trim_end(s.drop_last())
    } else {
        s
    }
}

/// `s` without its leading and trailing white space.
pub open spec fn trim(s: Seq<char>) -> Seq<char> {
    trim_end(trim_start(s))
}

/// Whether `s` holds nothing but white space.
pub open spec fn is_blank(s: Seq<char>) -> bool {
    forall|i: int| 0 <= i < s.len() ==> is_white_space(#[trigger] s[i])
}

/// Trimming leaves nothing exactly of the blank sequences.
pub proof fn lemma_trim_blank(s: Seq<char>)
    ensures
        trim(s).len() == 0 <==> is_blank(s),
{
    lemma_trim_start_shape(s);
    let t = trim_start(s);
    lemma_trim_end_shape(t);
    if trim(s).len() == 0 {
        if t.len() > 0 {
            // the first character of `t` is no white space, so `trim_end` keeps it
            assert(trim_end(t).len() > 0);
        }
        assert(t.len() == 0);
        assert forall|i: int| 0 <= i < s.len() implies is_white_space(#[trigger] s[i]) by {}
    } else {
        let k = s.len() - t.len();
        assert(t[0] == s[k]);
    }
}

/// `trim_start(s)` is a suffix of `s` that begins, if it is not empty, with a
/// character that is no white space; all that it leaves out is white space.
pub proof fn lemma_trim_start_shape(s: Seq<char>)
    ensures
        trim_start(s).len() <= s.len(),
        trim_start(s) == s.skip(s.len() - trim_start(s).len()),
        forall|i: int| 0 <= i < s.len() - trim_start(s).len() ==> is_white_space(#[trigger] s[i]),
        trim_start(s).len() > 0 ==> !is_white_space(trim_start(s)[0]),
    decreases s.len(),
{
    if s.len() > 0 && is_white_space(s[0]) {
        let r = s.drop_first();
        lemma_trim_start_shape(r);
        let k = r.len() - trim_start(r).len();
        assert(r.skip(k) =~= s.skip(k + 1));
        assert forall|i: int| 0 <= i < s.len() - trim_start(s).len() implies is_white_space(
            #[trigger] s[i],
        ) by {
            if i > 0 {
                assert(s[i] == r[i - 1]);
            }
        }
    } else {
        assert(s.skip(0) =~= s);
    }
}

/// `trim_end(s)` is a prefix of `s` that ends, if it is not empty, with a
/// character that is no white space; all that it leaves out is white space.
pub proof fn lemma_trim_end_shape(s: Seq<char>)
    ensures
        trim_end(s).len() <= s.len(),
        trim_end(s) == s.take(trim_end(s).len() as int),
        forall|i: int| trim_end(s).len() <= i < s.len() ==> is_white_space(#[trigger] s[i]),
        trim_end(s).len() > 0 ==> !is_white_space(trim_end(s).last()),
        trim_end(s).len() > 0 ==> trim_end(s)[0] == s[0],
    decreases s.len(),
{
    if s.len() > 0 && is_white_space(s.last()) {
        let r = s.drop_last();
        lemma_trim_end_shape(r);
        let k = trim_end(r).len() as int;
        assert(r.take(k) =~= s.take(k));
        assert forall|i: int| trim_end(s).len() <= i < s.len() implies is_white_space(
            #[trigger] s[i],
        ) by {
            if i < s.len() - 1 {
                assert(s[i] == r[i]);
            }
        }
    } else {
        assert(s.take(s.len() as int) =~= s);
    }
}

/// The characters of `s`, one by one.
pub(crate) fn chars_of(s: &str) -> (cs: Vec<char>)
    ensures
        cs@ == s@,
{
    let mut cs: Vec<char> = Vec::new();
    for c in it: s.chars()
        invariant
            cs@ == it.seq().take(it.index() as int),
    {
        cs.push(c);
    }
    cs
}

/// The characters of `cs` from `from` up to `to`, as a string.
pub(crate) fn string_of(cs: &Vec<char>, from: usize, to: usize) -> (s: String)
    requires
        from <= to <= cs.len(),
    ensures
        s@ == cs@.subrange(from as int, to as int),
{
    let mut s = String::new();
    let mut i: usize = from;
    while i < to
        invariant
            from <= i <= to <= cs.len(),
            s@ == cs@.subrange(from as int, i as int),
        decreases to - i,
    {
        s.push(cs[i]);
        i += 1;
    }
    s
}

/// Where the trimmed part of `cs[from..to]` begins and ends.
pub(crate) fn trim_bounds(cs: &Vec<char>, from: usize, to: usize) -> (r: (usize, usize))
    requires
        from <= to <= cs.len(),
    ensures
        from <= r.0 <= r.1 <= to,
        cs@.subrange(r.0 as int, r.1 as int) == trim(cs@.subrange(from as int, to as int)),
{
    let mut a: usize = from;
    while a < to && is_whitespace(cs[a])
        invariant
            from <= a <= to <= cs.len(),
            trim_start(cs@.subrange(from as int, to as int)) == trim_start(
                cs@.subrange(a as int, to as int),
            ),
        decreases to - a,
    {
        assert(cs@.subrange(a as int, to as int).drop_first() =~= cs@.subrange(
            a as int + 1,
            to as int,
        ));
        a += 1;
    }
    let mut b: usize = to;
    while b > a && is_whitespace(cs[b - 1])
        invariant
            a <= b <= to <= cs.len(),
            trim_end(cs@.subrange(a as int, to as int)) == trim_end(
                cs@.subrange(a as int, b as int),
            ),
        decreases b - a,
    {
        assert(cs@.subrange(a as int, b as int).drop_last() =~= cs@.subrange(
            a as int,
            b as int - 1,
        ));
        b -= 1;
    }
    (a, b)
}

/// Whether `s` holds nothing but white space.
pub fn is_blank_str(s: &str) -> (b: bool)
    ensures
        b == is_blank(s@),
{
    let cs = chars_of(s);
    let (a, b) = trim_bounds(&cs, 0, cs.len());
    proof {
        assert(cs@.subrange(0, cs.len() as int) =~= cs@);
        lemma_trim_blank(s@);
    }
    a == b
}

/// Whether `cs`, read from `from` on, begins with `prefix`.
pub(crate) fn has_prefix(cs: &Vec<char>, from: usize, prefix: &str) -> (b: bool)
    requires
        from <= cs.len(),
    ensures
        b == prefix@.is_prefix_of(cs@.skip(from as int)),
{
    let p = chars_of(prefix);
    if p.len() > cs.len() - from {
        return false;
    }
    let mut i: usize = 0;
    while i < p.len()
        invariant
            i <= p.len() <= cs.len() - from,
            p@ == prefix@,
            forall|j: int| 0 <= j < i ==> p@[j] == cs@[from + j],
        decreases p.len() - i,
    {
        if p[i] != cs[from + i] {
            assert(cs@.skip(from as int)[i as int] != p@[i as int]);
            return false;
        }
        i += 1;
    }
    assert(p@ =~= cs@.skip(from as int).subrange(0, p@.len() as int));
    true
}

/// The digit `d`, below 16, as a character: `0` to `9`, then `a` to `f`.
pub open spec fn digit_char(d: nat) -> char {
    if d < 10 {
        (0x30 + d) as char
    } else {
        (0x57 + d) as char
    }
}

/// `n` written in base `base` (from 2 to 16), most significant digit first,
/// with no sign and no leading zero.
pub open spec fn digits(n: nat, base: nat) -> Seq<char>
    decreases n,
    when base >= 2
    via digits_decreases
{
    if n < base {
        seq![digit_char(n)]
    } else {
        digits(n / base, base).push(digit_char(n % base))
    }
}

/// Dividing by the base makes a number of more than one digit smaller.
#[via_fn]
proof fn digits_decreases(n: nat, base: nat) {
    if n >= base {
        assert(n / base < n) by (nonlinear_arith)
            requires
                n >= base >= 2,
        ;
    }
}

/// `n` in decimal.
pub open spec fn decimal(n: nat) -> Seq<char> {
    digits(n, 10)
}

/// `n` in lower-case hexadecimal.
pub open spec fn hex(n: nat) -> Seq<char> {
    digits(n, 16)
}

/// What the character `c` counts as a hexadecimal digit, in either case.
pub open spec fn hex_digit_value(c: char) -> Option<nat> {
    let u = c as u32;
    if 0x30 <= u <= 0x39 {
        Some((u - 0x30) as nat)
    } else if 0x61 <= u <= 0x66 {
        Some((u - 0x57) as nat)
    } else if 0x41 <= u <= 0x46 {
        Some((u - 0x37) as nat)
    } else {
        None
    }
}

/// Whether every character of `s` is a hexadecimal digit.
pub open spec fn is_hex(s: Seq<char>) -> bool {
    forall|i: int| 0 <= i < s.len() ==> hex_digit_value(#[trigger] s[i]) is Some
}

/// The number that the hexadecimal digits `s` write.
pub open spec fn hex_value(s: Seq<char>) -> nat
    decreases s.len(),
{
    if s.len() == 0 {
        0
    } else {
        16 * hex_value(s.drop_last()) + hex_digit_value(s.last()).unwrap()
    }
}

/// The 32-bit number that `s` writes in hexadecimal: an optional `+`, then at
/// least one digit, in either case; `None` for anything else and for a number
/// that does not fit.
pub open spec fn parse_hex_u32(s: Seq<char>) -> Option<u32> {
    let d = if s.len() > 0 && s[0] == '+' {
        s.drop_first()
    } else {
        s
    };
    parse_hex_digits(d)
}

/// The 32-bit number that the digits `d` write in hexadecimal; `None` where
/// `d` is empty, holds anything but digits, or writes too large a number.
pub open spec fn parse_hex_digits(d: Seq<char>) -> Option<u32> {
    if d.len() > 0 && is_hex(d) && hex_value(d) <= u32::MAX {
        Some(hex_value(d) as u32)
    } else {
        None
    }
}

/// The digit `d` as a character.
fn digit_of(d: u8) -> (c: char)
    requires
        d < 16,
    ensures
        c == digit_char(d as nat),
{
    if d < 10 {
        (0x30 + d) as char
    } else {
        (0x57 + d) as char
    }
}

/// Appends `n`, written in base `base`, to `out`.
pub(crate) fn push_digits(out: &mut String, n: u64, base: u64)
    requires
        2 <= base <= 16,
    ensures
        final(out)@ == old(out)@ + digits(n as nat, base as nat),
    decreases n,
{
    if n >= base {
        assert(n / base < n) by (nonlinear_arith)
            requires
                n >= base >= 2,
        ;
        push_digits(out, n / base, base);
    }
    out.push(digit_of((n % base) as u8));
    proof {
        let c = digit_char((n % base) as nat);
        if n < base {
            assert(n % base == n) by (nonlinear_arith)
                requires
                    0 <= n < base,
            ;
            assert(digits(n as nat, base as nat) == seq![c]);
        } else {
            let rest = digits((n / base) as nat, base as nat);
            assert(digits(n as nat, base as nat) == rest.push(c));
            assert(out@ == (old(out)@ + rest).push(c));
        }
        assert(out@ =~= old(out)@ + digits(n as nat, base as nat));
    }
}

/// What `c` counts as a hexadecimal digit, if it is one.
fn hex_digit_of(c: char) -> (d: Option<u8>)
    ensures
        d is Some <==> hex_digit_value(c) is Some,
        d is Some ==> d.unwrap() == hex_digit_value(c).unwrap() && d.unwrap() < 16,
{
    let u: u32 = c as u32;
    if 0x30 <= u && u <= 0x39 {
        Some((u - 0x30) as u8)
    } else if 0x61 <= u && u <= 0x66 {
        Some((u - 0x57) as u8)
    } else if 0x41 <= u && u <= 0x46 {
        Some((u - 0x37) as u8)
    } else {
        None
    }
}

/// A longer run of digits writes no smaller number than its beginning.
proof fn lemma_hex_value_grows(s: Seq<char>, k: int)
    requires
        0 <= k <= s.len(),
    ensures
        hex_value(s.take(k)) <= hex_value(s),
    decreases s.len(),
{
    if k == s.len() {
        assert(s.take(k) =~= s);
    } else {
        lemma_hex_value_grows(s.drop_last(), k);
        assert(s.drop_last().take(k) =~= s.take(k));
    }
}

/// Reads `cs[from..to]` as a 32-bit number in hexadecimal.
pub(crate) fn parse_hex(cs: &Vec<char>, from: usize, to: usize) -> (r: Option<u32>)
    requires
        from <= to <= cs.len(),
    ensures
        r == parse_hex_u32(cs@.subrange(from as int, to as int)),
{
    let ghost s = cs@.subrange(from as int, to as int);
    let start: usize = if from < to && cs[from] == '+' {
        from + 1
    } else {
        from
    };
    let ghost d = cs@.subrange(start as int, to as int);
    assert(d =~= if s.len() > 0 && s[0] == '+' {
        s.drop_first()
    } else {
        s
    });
    assert(parse_hex_u32(s) == parse_hex_digits(d));
    if start == to {
        return None;
    }
    let mut acc: u64 = 0;
    let mut i: usize = start;
    while i < to
        invariant
            start <= i <= to <= cs.len(),
            d == cs@.subrange(start as int, to as int),
            parse_hex_u32(cs@.subrange(from as int, to as int)) == parse_hex_digits(d),
            is_hex(d.take(i - start)),
            acc == hex_value(d.take(i - start)),
            acc <= u32::MAX,
        decreases to - i,
    {
        let ghost before = d.take(i - start);
        let ghost after = d.take(i - start + 1);
        assert(after.drop_last() =~= before);
        assert(after.last() == cs@[i as int]);
        match hex_digit_of(cs[i]) {
            None => {
                assert(hex_digit_value(d[i - start]) is None);
                return None;
            },
            Some(v) => {
                acc = acc * 16 + v as u64;
                assert(acc == hex_value(after));
                assert forall|j: int| 0 <= j < after.len() implies hex_digit_value(
                    #[trigger] after[j],
                ) is Some by {
                    if j < before.len() {
                        assert(after[j] == before[j]);
                    }
                }
                if acc > 0xFFFF_FFFF {
                    proof {
                        lemma_hex_value_grows(d, i - start + 1);
                    }
                    return None;
                }
            },
        }
        i += 1;
    }
    assert(d.take(to - start) =~= d);
    Some(acc as u32)
}

/// Reading back what `hex` wrote gives the number again.
pub proof fn lemma_hex_roundtrip(n: nat)
    ensures
        hex(n).len() > 0,
        is_hex(hex(n)),
        hex(n)[0] != '+',
        hex_value(hex(n)) == n,
        n <= u32::MAX ==> parse_hex_u32(hex(n)) == Some(n as u32),
    decreases n,
{
    let c = digit_char(n % 16);
    assert(hex_digit_value(c) == Some(n % 16));
    if n < 16 {
        assert(hex(n) =~= seq![c]);
        assert(hex(n).drop_last() =~= Seq::<char>::empty());
        assert(hex_value(hex(n).drop_last()) == 0);
    } else {
        lemma_hex_roundtrip(n / 16);
        let h = hex(n / 16);
        assert(hex(n) == h.push(c));
        assert(h.push(c).drop_last() =~= h);
        assert(h.push(c)[0] == h[0]);
        assert forall|i: int| 0 <= i < hex(n).len() implies hex_digit_value(
            #[trigger] hex(n)[i],
        ) is Some by {
            if i < h.len() {
                assert(hex(n)[i] == h[i]);
            }
        }
    }
}

} // verus!
