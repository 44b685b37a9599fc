//! Reading numbers and addresses out of text: the decimal and hexadecimal
//! integer syntax of `str::parse` / `from_str_radix` and the dotted-decimal
//! IPv4 syntax, each stated over `Seq<char>`.
use vstd::prelude::*;
use crate::text::{chars_of, is_ascii_digit, split_on, lemma_split_on_nonempty};

verus! {

pub open spec fn all_digits(s: Seq<char>) -> bool {
    forall|i: int| 0 <= i < s.len() ==> is_ascii_digit(#[trigger] s[i])
}

/// The value of a string of decimal digits.
pub open spec fn digits_value(s: Seq<char>) -> nat
    decreases s.len(),
{
    if s.len() == 0 {
        0
    } else {
        digits_value(s.drop_last()) * 10 + ((s.last() as u32) - 48) as nat
    }
}

pub open spec fn hex_digit_value(c: char) -> Option<nat> {
    if '0' <= c && c <= '9' {
        Some(((c as u32) - 48) as nat)
    } else if 'a' <= c && c <= 'f' {
        Some(((c as u32) - 87) as nat)
    } else if 'A' <= c && c <= 'F' {
        Some(((c as u32) - 55) as nat)
    } else {
        None
    }
}

pub open spec fn all_hex(s: Seq<char>) -> bool {
    forall|i: int| 0 <= i < s.len() ==> hex_digit_value(#[trigger] s[i]) is Some
}

/// The value of a string of hexadecimal digits.
pub open spec fn hex_value(s: Seq<char>) -> nat
    decreases s.len(),
{
    if s.len() == 0 {
        0
    } else {
        hex_value(s.drop_last()) * 16 + hex_digit_value(s.last()).unwrap_or(0)
    }
}

/// What `s.parse::<u_N>()` gives for an unsigned type whose largest value is
/// `max`: an optional `+`, then one or more decimal digits whose value fits.
pub open spec fn unsigned_parse(s: Seq<char>, max: nat) -> Option<nat> {
    let d = if s.len() > 0 && s[0] == '+' { s.drop_first() } else { s };
    if d.len() > 0 && all_digits(d) && digits_value(d) <= max {
        Some(digits_value(d))
    } else {
        None
    }
}

/// What `u32::from_str_radix(s, 16)` gives: an optional `+`, then one or more
/// hexadecimal digits whose value fits.
pub open spec fn hex_parse(s: Seq<char>) -> Option<nat> {
    let d = if s.len() > 0 && s[0] == '+' { s.drop_first() } else { s };
    if d.len() > 0 && all_hex(d) && hex_value(d) <= u32::MAX {
        Some(hex_value(d))
    } else {
        None
    }
}

/// Parse an unsigned decimal number no larger than `max`, the way
/// `str::parse` does for the unsigned integer types.
pub fn parse_unsigned(s: &str, max: u64) -> (r: Option<u64>)
    ensures
        match unsigned_parse(s@, max as nat) {
            Some(v) => r == Some(v as u64),
            None => r is None,
        },
{
    let v = chars_of(s);
    let start: usize = if v.len() > 0 && v[0] == '+' { 1 } else { 0 };
    let ghost d = if s@.len() > 0 && s@[0] == '+' { s@.drop_first() } else { s@ };
    assert(d =~= v@.subrange(start as int, v.len() as int));
    if start >= v.len() {
        return None;
    }
    let mut acc: u64 = 0;
    let mut i = start;
    while i < v.len()
        invariant
            v@ == s@,
            start <= i <= v.len(),
            d == v@.subrange(start as int, v.len() as int),
            d == (if s@.len() > 0 && s@[0] == '+' { s@.drop_first() } else { s@ }),
            all_digits(v@.subrange(start as int, i as int)),
            acc as nat == digits_value(v@.subrange(start as int, i as int)),
            acc <= max,
        decreases v.len() - i,
    {
        let c = v[i];
        assert(v@.subrange(start as int, i + 1).drop_last() =~= v@.subrange(start as int, i as int));
        if !('0' <= c && c <= '9') {
            assert(d[i - start] == c);
            assert(!all_digits(d));
            return None;
        }
        let dv = (c as u32 - 48) as u64;
        if dv > max || acc > (max - dv) / 10 {
            proof {
                assert(acc * 10 + dv > max) by (nonlinear_arith)
                    requires dv > max || acc > (max - dv) / 10, acc >= 0;
                assert(d.take((i - start + 1) as int) =~= v@.subrange(start as int, i + 1));
                if all_digits(d) {
                    lemma_digits_monotone(d, (i - start + 1) as int);
                }
            }
            return None;
        }
        proof {
            assert(acc * 10 + dv <= max) by (nonlinear_arith)
                requires acc <= (max - dv) / 10, dv <= max;
        }
        acc = acc * 10 + dv;
        i += 1;
    }
    assert(v@.subrange(start as int, v.len() as int) =~= d);
    Some(acc)
}

/// What `s.parse::<i32>()` gives: an optional sign, then one or more decimal
/// digits whose value fits.
pub open spec fn i32_parse(s: Seq<char>) -> Option<int> {
    if s.len() > 0 && s[0] == '-' {
        let d = s.drop_first();
        if d.len() > 0 && all_digits(d) && digits_value(d) <= 0x8000_0000 {
            Some(-(digits_value(d) as int))
        } else {
            None
        }
    } else {
        match unsigned_parse(s, 0x7fff_ffff) {
            Some(v) => Some(v as int),
            None => None,
        }
    }
}

/// Parse a decimal `i32` the way `str::parse` does.
pub fn parse_i32(s: &str) -> (r: Option<i32>)
    ensures
        match i32_parse(s@) {
            Some(v) => r == Some(v as i32),
            None => r is None,
        },
{
    match crate::text::strip_prefix(s, "-") {
        Some(rest) => {
            proof {
                reveal_strlit("-");
            }
            if crate::text::has_prefix(rest.as_str(), "+") {
                proof {
                    reveal_strlit("+");
                    assert(rest@.subrange(0, 1)[0] == rest@[0]);
                    assert(rest@[0] == '+');
                    assert(rest@ =~= s@.drop_first());
                    assert(!is_ascii_digit(s@.drop_first()[0]));
                }
                return None;
            }
            proof {
                reveal_strlit("+");
                assert(rest@ =~= s@.drop_first());
                if rest@.len() > 0 && rest@[0] == '+' {
                    assert(rest@.subrange(0, 1) =~= "+"@);
                }
                assert(s@.subrange(0, 1)[0] == s@[0]);
            }
            match parse_unsigned(rest.as_str(), 0x8000_0000) {
                Some(n) => Some((0 - (n as i64)) as i32),
                None => None,
            }
        },
        None => {
            proof {
                reveal_strlit("-");
                if s@.len() > 0 && s@[0] == '-' {
                    assert(s@.subrange(0, 1) =~= "-"@);
                }
            }
            match parse_unsigned(s, 0x7fff_ffff) {
                Some(n) => Some(n as i32),
                None => None,
            }
        },
    }
}

/// Digits only add value: a longer prefix of a digit string is never worth less.
pub proof fn lemma_digits_monotone(d: Seq<char>, n: int)
    requires
        0 <= n <= d.len(),
        all_digits(d),
    ensures
        digits_value(d.take(n)) <= digits_value(d),
    decreases d.len() - n,
{
    if n < d.len() {
        lemma_digits_monotone(d, n + 1);
        assert(d.take(n + 1).drop_last() =~= d.take(n));
        assert(is_ascii_digit(d[n]));
    } else {
        assert(d.take(n) =~= d);
    }
}

/// Parse hexadecimal digits as a `u32` (`u32::from_str_radix(s, 16)`).
pub fn parse_hex_u32(s: &str) -> (r: Option<u32>)
    ensures
        match hex_parse(s@) {
            Some(v) => r == Some(v as u32),
            None => r is None,
        },
{
    let v = chars_of(s);
    let start: usize = if v.len() > 0 && v[0] == '+' { 1 } else { 0 };
    let ghost d = if s@.len() > 0 && s@[0] == '+' { s@.drop_first() } else { s@ };
    assert(d =~= v@.subrange(start as int, v.len() as int));
    if start >= v.len() {
        return None;
    }
    let mut acc: u32 = 0;
    let mut i = start;
    while i < v.len()
        invariant
            v@ == s@,
            start <= i <= v.len(),
            d == v@.subrange(start as int, v.len() as int),
            d == (if s@.len() > 0 && s@[0] == '+' { s@.drop_first() } else { s@ }),
            all_hex(v@.subrange(start as int, i as int)),
            acc as nat == hex_value(v@.subrange(start as int, i as int)),
        decreases v.len() - i,
    {
        let c = v[i];
        assert(v@.subrange(start as int, i + 1).drop_last() =~= v@.subrange(start as int, i as int));
        let dv: u32 = if '0' <= c && c <= '9' {
            c as u32 - 48
        } else if 'a' <= c && c <= 'f' {
            c as u32 - 87
        } else if 'A' <= c && c <= 'F' {
            c as u32 - 55
        } else {
            assert(d[i - start] == c);
            assert(!all_hex(d));
            return None;
        };
        if acc > (u32::MAX - dv) / 16 {
            proof {
                assert((acc * 16 + dv) > u32::MAX) by (nonlinear_arith)
                    requires acc > (u32::MAX - dv) / 16, dv < 16;
                assert(d.take((i - start + 1) as int) =~= v@.subrange(start as int, i + 1));
                if all_hex(d) {
                    lemma_hex_monotone(d, (i - start + 1) as int);
                }
            }
            return None;
        }
        proof {
            assert(acc * 16 + dv <= u32::MAX) by (nonlinear_arith)
                requires acc <= (u32::MAX - dv) / 16, dv < 16;
        }
        acc = acc * 16 + dv;
        i += 1;
    }
    assert(v@.subrange(start as int, v.len() as int) =~= d);
    Some(acc)
}

pub proof fn lemma_hex_monotone(d: Seq<char>, n: int)
    requires
        0 <= n <= d.len(),
        all_hex(d),
    ensures
        hex_value(d.take(n)) <= hex_value(d),
    decreases d.len() - n,
{
    if n < d.len() {
        lemma_hex_monotone(d, n + 1);
        assert(d.take(n + 1).drop_last() =~= d.take(n));
        assert(hex_digit_value(d[n]) is Some);
    } else {
        assert(d.take(n) =~= d);
    }
}

/// One octet of a dotted-decimal address: one to three digits, no leading
/// zero, at most 255.
pub open spec fn is_octet(p: Seq<char>) -> bool {
    &&& 1 <= p.len() <= 3
    &&& all_digits(p)
    &&& (p.len() == 1 || p[0] != '0')
    &&& digits_value(p) <= 255
}

/// `s` is an IPv4 address in dotted-decimal notation, what
/// `Ipv4Addr::from_str` accepts: four octets joined by `.`, leading zeros
/// refused.
pub open spec fn is_ipv4(s: Seq<char>) -> bool {
    let parts = split_on(s, '.');
    parts.len() == 4 && forall|i: int| 0 <= i < 4 ==> is_octet(#[trigger] parts[i])
}

/// Whether `s` is a dotted-decimal IPv4 address.
pub fn parse_ipv4(s: &str) -> (r: bool)
    ensures
        r == is_ipv4(s@),
{
    let v = chars_of(s);
    let mut parts: Vec<Vec<char>> = Vec::new();
    parts.push(Vec::new());
    let mut i: usize = 0;
    while i < v.len()
        invariant
            v@ == s@,
            i <= v.len(),
            parts.len() >= 1,
            parts@.map_values(|p: Vec<char>| p@) == split_on(v@.take(i as int), '.'),
        decreases v.len() - i,
    {
        let ghost before = parts@.map_values(|p: Vec<char>| p@);
        assert(v@.take(i + 1).drop_last() =~= v@.take(i as int));
        if v[i] == '.' {
            parts.push(Vec::new());
            assert(parts@.map_values(|p: Vec<char>| p@) =~= before.push(Seq::empty()));
        } else {
            let last = parts.len() - 1;
            let mut p = parts.remove(last);
            p.push(v[i]);
            parts.push(p);
            assert(parts@.map_values(|p: Vec<char>| p@) =~= before.update(
                before.len() - 1,
                before.last().push(v@[i as int]),
            ));
        }
        i += 1;
    }
    assert(v@.take(v.len() as int) =~= s@);
    if parts.len() != 4 {
        return false;
    }
    let mut k: usize = 0;
    while k < 4
        invariant
            k <= 4,
            parts.len() == 4,
            parts@.map_values(|p: Vec<char>| p@) == split_on(s@, '.'),
            forall|j: int| 0 <= j < k ==> is_octet(#[trigger] split_on(s@, '.')[j]),
        decreases 4 - k,
    {
        let p = &parts[k];
        assert(p@ == split_on(s@, '.')[k as int]);
        if p.len() < 1 || p.len() > 3 {
            assert(!is_octet(split_on(s@, '.')[k as int]));
            return false;
        }
        if p.len() > 1 && p[0] == '0' {
            assert(!is_octet(split_on(s@, '.')[k as int]));
            return false;
        }
        let mut value: u32 = 0;
        let mut j: usize = 0;
        while j < p.len()
            invariant
                1 <= p.len() <= 3,
                k < 4,
                p@ == split_on(s@, '.')[k as int],
                j <= p.len(),
                all_digits(p@.take(j as int)),
                value as nat == digits_value(p@.take(j as int)),
                j == 0 ==> value == 0,
                j == 1 ==> value <= 9,
                j == 2 ==> value <= 99,
            decreases p.len() - j,
        {
            let c = p[j];
            assert(p@.take(j + 1).drop_last() =~= p@.take(j as int));
            if !('0' <= c && c <= '9') {
                assert(p@[j as int] == c);
                assert(!all_digits(p@));
                return false;
            }
            value = value * 10 + (c as u32 - 48);
            j += 1;
        }
        assert(p@.take(p.len() as int) =~= p@);
        if value > 255 {
            assert(!is_octet(split_on(s@, '.')[k as int]));
            return false;
        }
        k += 1;
    }
    true
}

} // verus!
