//! Big-endian conversions between byte slices and the 16- and 32-bit
//! integers of the DHCP fixed header and of the time-valued options.

use vstd::arithmetic::div_mod::{lemma_div_denominator, lemma_fundamental_div_mod};
use vstd::prelude::*;

verus! {

/// Value of two bytes read in network byte order (most significant first).
pub open spec fn u16_val(s: Seq<u8>) -> int {
    (s[0] as int) * 0x100 + (s[1] as int)
}

/// Value of four bytes read in network byte order.
pub open spec fn u32_val(s: Seq<u8>) -> int {
    (s[0] as int) * 0x1000000 + (s[1] as int) * 0x10000 + (s[2] as int) * 0x100 + (s[3] as int)
}

/// The two bytes of a 16-bit value in network byte order.
pub open spec fn u16_bytes(v: u16) -> Seq<u8> {
    seq![(v / 0x100) as u8, (v % 0x100) as u8]
}

/// The four bytes of a 32-bit value in network byte order.
pub open spec fn u32_bytes(v: u32) -> Seq<u8> {
    seq![
        (v / 0x1000000) as u8,
        ((v / 0x10000) % 0x100) as u8,
        ((v / 0x100) % 0x100) as u8,
        (v % 0x100) as u8,
    ]
}

pub fn slice_to_u16(slice: &[u8]) -> (r: u16)
    requires
        slice@.len() >= 2,
    ensures
        r == u16_val(slice@.subrange(0, 2)),
{
    let b0 = slice[0];
    let b1 = slice[1];
    (b0 as u16) * 0x100 + (b1 as u16)
}

pub fn slice_to_u32(slice: &[u8]) -> (r: u32)
    requires
        slice@.len() >= 4,
    ensures
        r == u32_val(slice@.subrange(0, 4)),
{
    let b0 = slice[0];
    let b1 = slice[1];
    let b2 = slice[2];
    let b3 = slice[3];
    (b0 as u32) * 0x1000000 + (b1 as u32) * 0x10000 + (b2 as u32) * 0x100 + (b3 as u32)
}

pub fn u16_to_slice(value: u16) -> (r: [u8; 2])
    ensures
        r@ == u16_bytes(value),
{
    let r = [(value / 0x100) as u8, (value % 0x100) as u8];
    proof {
        assert(r@ =~= u16_bytes(value));
    }
    r
}

pub fn u32_to_slice(value: u32) -> (r: [u8; 4])
    ensures
        r@ == u32_bytes(value),
{
    let r = [
        (value / 0x1000000) as u8,
        ((value / 0x10000) % 0x100) as u8,
        ((value / 0x100) % 0x100) as u8,
        (value % 0x100) as u8,
    ];
    proof {
        assert(r@ =~= u32_bytes(value));
    }
    r
}

/// Whether a character is a decimal digit.
pub open spec fn is_dec_digit(c: char) -> bool {
    48 <= c as int <= 57
}

/// The value of a decimal digit character.
pub open spec fn digit_of(c: char) -> int {
    c as int - 48
}

/// The value of a non-empty all-digit string, read in decimal, provided it
/// does not exceed `max`; `None` on any other string.
pub open spec fn dec_val(s: Seq<char>, max: int) -> Option<int>
    decreases s.len(),
{
    if s.len() == 0 {
        None
    } else if !is_dec_digit(s.last()) {
        None
    } else if s.len() == 1 {
        if digit_of(s.last()) <= max {
            Some(digit_of(s.last()))
        } else {
            None
        }
    } else {
        match dec_val(s.drop_last(), max) {
            Some(v) => if v * 10 + digit_of(s.last()) <= max {
                Some(v * 10 + digit_of(s.last()))
            } else {
                None
            },
            None => None,
        }
    }
}

/// The value of a decimal string with an optional leading plus sign, as the
/// standard library's unsigned parsers accept it, capped at `max`.
pub open spec fn dec_parse(s: Seq<char>, max: int) -> Option<int> {
    if s.len() > 0 && s[0] == '+' {
        dec_val(s.subrange(1, s.len() as int), max)
    } else {
        dec_val(s, max)
    }
}

/// Once a prefix of the digit string fails to parse, every longer prefix
/// fails as well.
proof fn lemma_dec_val_none_extends(s: Seq<char>, i: int, j: int, max: int)
    requires
        1 <= i <= j <= s.len(),
        dec_val(s.subrange(0, i), max) == None::<int>,
    ensures
        dec_val(s.subrange(0, j), max) == None::<int>,
    decreases j - i,
{
    if j > i {
        lemma_dec_val_none_extends(s, i, j - 1, max);
        let sub = s.subrange(0, j);
        assert(sub.drop_last() =~= s.subrange(0, j - 1));
    }
}

/// Parse a decimal string as the standard library's unsigned parsers do:
/// an optional plus sign, then one or more digits, rejecting values above
/// `max`.
pub fn parse_dec(s: &str, max: u64) -> (r: Option<u64>)
    ensures
        r matches Some(v) ==> dec_parse(s@, max as int) == Some(v as int),
        r is None ==> dec_parse(s@, max as int) == None::<int>,
{
    let len = s.unicode_len();
    if len == 0 {
        return None;
    }
    let first = s.get_char(0);
    let start: usize = if first == '+' {
        1
    } else {
        0
    };
    let ghost digits = s@.subrange(start as int, s@.len() as int);
    proof {
        if start == 0 {
            assert(digits =~= s@);
        }
    }
    if start == len {
        proof {
            assert(digits.len() == 0);
        }
        return None;
    }
    let mut acc: u64 = 0;
    let mut i: usize = start;
    loop
        invariant
            start <= i <= len,
            len == s@.len(),
            digits == s@.subrange(start as int, s@.len() as int),
            digits.len() == len - start,
            len >= 1,
            start < len,
            start == 0 || (start == 1 && s@[0] == '+'),
            start == 0 ==> s@[0] != '+',
            i > start ==> dec_val(digits.subrange(0, i - start), max as int) == Some(acc as int),
            i == start ==> acc == 0,
            acc <= max,
        ensures
            i == len,
            i > start,
            dec_val(digits.subrange(0, i - start), max as int) == Some(acc as int),
        decreases len - i,
    {
        if i == len {
            break;
        }
        let c = s.get_char(i);
        let cv = c as u32;
        let ghost prefix = digits.subrange(0, i + 1 - start);
        proof {
            assert(prefix.drop_last() =~= digits.subrange(0, i - start));
            assert(prefix.last() == s@[i as int]);
        }
        if cv < 48 || cv > 57 {
            proof {
                lemma_dec_val_none_extends(digits, i + 1 - start, digits.len() as int, max as int);
                assert(digits.subrange(0, digits.len() as int) =~= digits);
                if start == 0 {
                    assert(digits =~= s@);
                }
            }
            return None;
        }
        let d = (cv - 48) as u64;
        if d > max {
            proof {
                lemma_dec_val_none_extends(digits, i + 1 - start, digits.len() as int, max as int);
                assert(digits.subrange(0, digits.len() as int) =~= digits);
                if start == 0 {
                    assert(digits =~= s@);
                }
            }
            return None;
        }
        if i > start && acc > (max - d) / 10 {
            proof {
                assert(acc * 10 + d > max) by (nonlinear_arith)
                    requires
                        acc > (max - d) / 10,
                        d <= max,
                        acc >= 0,
                        max >= 0,
                        (max - d) >= 10 * ((max - d) / 10),
                ;
                lemma_dec_val_none_extends(digits, i + 1 - start, digits.len() as int, max as int);
                assert(digits.subrange(0, digits.len() as int) =~= digits);
                if start == 0 {
                    assert(digits =~= s@);
                }
            }
            return None;
        }
        proof {
            if i > start {
                assert(acc <= (max - d) / 10);
                assert(acc * 10 <= max - d) by (nonlinear_arith)
                    requires
                        acc <= (max - d) / 10,
                        acc >= 0,
                        max - d >= 0,
                        (max - d) >= 10 * ((max - d) / 10),
                ;
            }
        }
        acc = if i == start {
            d
        } else {
            acc * 10 + d
        };
        i = i + 1;
    }
    proof {
        assert(digits.subrange(0, digits.len() as int) =~= digits);
        if start == 1 {
            assert(dec_parse(s@, max as int) == dec_val(digits, max as int));
        } else {
            assert(digits =~= s@);
        }
    }
    Some(acc)
}

/// The smallest index at or after `from` where `sep` occurs, if any.
pub open spec fn find_sep(s: Seq<char>, from: int, sep: char) -> Option<int>
    decreases s.len() - from,
{
    if from < 0 || from >= s.len() {
        None
    } else if s[from] == sep {
        Some(from)
    } else {
        find_sep(s, from + 1, sep)
    }
}

/// Prepend a parsed prefix to the rest of a parse, propagating failure.
pub open spec fn opt_prepend(p: Seq<u8>, o: Option<Seq<u8>>) -> Option<Seq<u8>> {
    match o {
        Some(t) => Some(p + t),
        None => None,
    }
}

/// Prepending an empty prefix changes nothing.
pub proof fn lemma_opt_prepend_empty(o: Option<Seq<u8>>)
    ensures
        opt_prepend(Seq::empty(), o) == o,
{
    match o {
        Some(t) => {
            assert(Seq::empty() + t =~= t);
        },
        None => {},
    }
}

/// Prefixes compose: prepending `p` and then `q` is prepending `p + q`.
pub proof fn lemma_opt_prepend_assoc(p: Seq<u8>, q: Seq<u8>, o: Option<Seq<u8>>)
    ensures
        opt_prepend(p, opt_prepend(q, o)) == opt_prepend(p + q, o),
{
    match o {
        Some(t) => {
            assert(p + (q + t) =~= (p + q) + t);
        },
        None => {},
    }
}

/// Scan for the next occurrence of `sep` at or after `from`.
pub fn scan_sep(s: &str, from: usize, sep: char) -> (r: Option<usize>)
    requires
        from <= s@.len(),
    ensures
        r matches Some(k) ==> find_sep(s@, from as int, sep) == Some(k as int) && from <= k
            < s@.len() && s@[k as int] == sep,
        r is None ==> find_sep(s@, from as int, sep) == None::<int>,
{
    let len = s.unicode_len();
    let mut k = from;
    loop
        invariant
            from <= k <= len,
            len == s@.len(),
            find_sep(s@, from as int, sep) == find_sep(s@, k as int, sep),
        decreases len - k,
    {
        if k == len {
            return None;
        }
        if s.get_char(k) == sep {
            return Some(k);
        }
        k = k + 1;
    }
}

/// Reading back the two bytes of a 16-bit value yields the value.
pub proof fn lemma_u16_bytes_val(v: u16)
    ensures
        u16_val(u16_bytes(v)) == v,
{
    lemma_fundamental_div_mod(v as int, 0x100);
}

/// Reading back the four bytes of a 32-bit value yields the value.
pub proof fn lemma_u32_bytes_val(v: u32)
    ensures
        u32_val(u32_bytes(v)) == v,
{
    lemma_fundamental_div_mod(v as int, 0x100);
    lemma_fundamental_div_mod(v as int / 0x100, 0x100);
    lemma_fundamental_div_mod(v as int / 0x10000, 0x100);
    lemma_div_denominator(v as int, 0x100, 0x100);
    lemma_div_denominator(v as int, 0x10000, 0x100);
}

} // verus!
