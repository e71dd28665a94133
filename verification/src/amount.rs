//! The amount grammar: parses a text slice into a numeric factor and an
//! optional unit. Five branches are tried in strict precedence order:
//! slash fraction, Unicode vulgar fraction, decimal numeral, plain integer,
//! and a fallback that keeps the whole trimmed text as the unit.
//!
//! A numeral too large for its target type makes its branch fail, so a
//! later branch or the fallback takes over; nothing wraps around silently.

use vstd::prelude::*;
use vstd::string::StringSliceAdditionalSpecFns;

use crate::events::bytes_to_string;
use crate::models::{Amount, AmountM, Factor, FactorM, amount_matches, opt_text_matches};
use crate::text::{
    is_digit, spec_digits_val, spec_skip_digits, spec_skip_ws, spec_trim, digits_val_capped,
    lemma_digits_val_nonneg, skip_digits, skip_ws, slice_vec, trim,
};

verus! {

/// The vulgar-fraction table: if a vulgar-fraction code point is encoded at
/// `i` in `s[..hi]`, its numerator, denominator and encoded byte length.
pub open spec fn spec_vulgar_at(s: Seq<u8>, i: int, hi: int) -> Option<(u16, u16, int)> {
    if i < 0 || hi > s.len() || i >= hi {
        Option::None
    } else if hi - i > 1 && s[i] == 0xc2 {
        if s[i + 1] == 0xbc {
            Option::Some((1u16, 4u16, 2int))
        } else if s[i + 1] == 0xbd {
            Option::Some((1u16, 2u16, 2int))
        } else if s[i + 1] == 0xbe {
            Option::Some((3u16, 4u16, 2int))
        } else {
            Option::None
        }
    } else if hi - i > 2 && s[i] == 0xe2 && s[i + 1] == 0x85 && 0x90 <= s[i + 2] <= 0x9e {
        let b = s[i + 2];
        let nd: (u16, u16) = if b == 0x90 {
            (1u16, 7u16)
        } else if b == 0x91 {
            (1u16, 9u16)
        } else if b == 0x92 {
            (1u16, 10u16)
        } else if b == 0x93 {
            (1u16, 3u16)
        } else if b == 0x94 {
            (2u16, 3u16)
        } else if b == 0x95 {
            (1u16, 5u16)
        } else if b == 0x96 {
            (2u16, 5u16)
        } else if b == 0x97 {
            (3u16, 5u16)
        } else if b == 0x98 {
            (4u16, 5u16)
        } else if b == 0x99 {
            (1u16, 6u16)
        } else if b == 0x9a {
            (5u16, 6u16)
        } else if b == 0x9b {
            (1u16, 8u16)
        } else if b == 0x9c {
            (3u16, 8u16)
        } else if b == 0x9d {
            (5u16, 8u16)
        } else {
            (7u16, 8u16)
        };
        Option::Some((nd.0, nd.1, 3int))
    } else if hi - i > 2 && s[i] == 0xe2 && s[i + 1] == 0x86 && s[i + 2] == 0x89 {
        Option::Some((0u16, 3u16, 3int))
    } else {
        Option::None
    }
}

/// Whether `s[lo..hi]` holds a newline byte. A unit must fit on one line;
/// a branch whose trailing unit text would span lines does not match.
pub open spec fn spec_has_nl(s: Seq<u8>, lo: int, hi: int) -> bool {
    exists|j: int| lo <= j < hi && 0 <= j < s.len() && s[j] == 10
}

/// The optional trailing unit that starts at `u`: leading whitespace is
/// skipped, an empty rest is no unit, and a rest holding a newline makes
/// the whole branch fail (`None`).
pub open spec fn spec_unit_from(s: Seq<u8>, u: int, hi: int) -> Option<Option<Seq<u8>>> {
    let w = spec_skip_ws(s, u, hi);
    if w >= hi {
        Option::Some(Option::None)
    } else if spec_has_nl(s, w, hi) {
        Option::None
    } else {
        Option::Some(Option::Some(s.subrange(w, hi)))
    }
}

/// The slash-fraction branch after the numerator has been delimited:
/// optional whitespace, a `/`, optional whitespace, a denominator run, and
/// the optional unit. The whole part is `s[wlo..whi]` (empty when absent).
pub open spec fn spec_slash_after_num(s: Seq<u8>, wlo: int, whi: int, nlo: int, nhi: int, hi: int)
    -> Option<AmountM> {
    let sl = spec_skip_ws(s, nhi, hi);
    if sl < hi && 0 <= sl < s.len() && s[sl] == 47 {
        let ds = spec_skip_ws(s, sl + 1, hi);
        let de = spec_skip_digits(s, ds, hi);
        if de == ds {
            Option::None
        } else {
            let wv = spec_digits_val(s, wlo, whi);
            let nv = spec_digits_val(s, nlo, nhi);
            let dv = spec_digits_val(s, ds, de);
            if wv <= 0xffff && nv <= 0xffff && dv <= 0xffff && wv * dv + nv <= 0xffff {
                match spec_unit_from(s, de, hi) {
                    Option::Some(u) => Option::Some(
                        AmountM {
                            factor: Option::Some(
                                FactorM::Fraction((wv * dv + nv) as u16, dv as u16),
                            ),
                            unit: u,
                        },
                    ),
                    Option::None => Option::None,
                }
            } else {
                Option::None
            }
        }
    } else {
        Option::None
    }
}

/// Branch 1: a proper or improper slash fraction, `1/2` or `1 1/2`, with an
/// optional unit. The whole and the numerator combine as
/// `whole * denominator + numerator`.
pub open spec fn spec_slash_branch(s: Seq<u8>, lo: int, hi: int) -> Option<AmountM> {
    let d1e = spec_skip_digits(s, lo, hi);
    if d1e == lo {
        Option::None
    } else {
        let w1 = spec_skip_ws(s, d1e, hi);
        if w1 > d1e && w1 < hi && 0 <= w1 < s.len() && is_digit(s[w1]) {
            let d2e = spec_skip_digits(s, w1, hi);
            spec_slash_after_num(s, lo, d1e, w1, d2e, hi)
        } else {
            spec_slash_after_num(s, lo, lo, lo, d1e, hi)
        }
    }
}

/// Branch 2: an optional whole part, a vulgar-fraction code point, and an
/// optional unit; the combination rule is the same as in branch 1.
pub open spec fn spec_vulgar_branch(s: Seq<u8>, lo: int, hi: int) -> Option<AmountM> {
    let d1e = spec_skip_digits(s, lo, hi);
    let w1 = spec_skip_ws(s, d1e, hi);
    if d1e > lo && w1 > d1e && spec_vulgar_at(s, w1, hi) is Some {
        spec_vulgar_tail(s, lo, d1e, w1, hi)
    } else if spec_vulgar_at(s, lo, hi) is Some {
        spec_vulgar_tail(s, lo, lo, lo, hi)
    } else {
        Option::None
    }
}

pub open spec fn spec_vulgar_tail(s: Seq<u8>, wlo: int, whi: int, sym: int, hi: int) -> Option<
    AmountM,
> {
    match spec_vulgar_at(s, sym, hi) {
        Option::Some((n, d, len)) => {
            let wv = spec_digits_val(s, wlo, whi);
            if wv <= 0xffff && wv * d + n <= 0xffff {
                match spec_unit_from(s, sym + len, hi) {
                    Option::Some(u) => Option::Some(
                        AmountM {
                            factor: Option::Some(FactorM::Fraction((wv * d + n) as u16, d)),
                            unit: u,
                        },
                    ),
                    Option::None => Option::None,
                }
            } else {
                Option::None
            }
        },
        Option::None => Option::None,
    }
}

/// Branch 3: a decimal numeral, `1.5` or `1,5` (the integral digits may be
/// empty), kept exactly as its digits joined by `.`, with an optional unit.
pub open spec fn spec_decimal_branch(s: Seq<u8>, lo: int, hi: int) -> Option<AmountM> {
    let ie = spec_skip_digits(s, lo, hi);
    if ie < hi && 0 <= ie < s.len() && (s[ie] == 46 || s[ie] == 44) {
        let fs = ie + 1;
        let fe = spec_skip_digits(s, fs, hi);
        if fe == fs {
            Option::None
        } else {
            match spec_unit_from(s, fe, hi) {
                Option::Some(u) => Option::Some(
                    AmountM {
                        factor: Option::Some(
                            FactorM::Decimal(
                                s.subrange(lo, ie) + seq![46u8] + s.subrange(fs, fe),
                            ),
                        ),
                        unit: u,
                    },
                ),
                Option::None => Option::None,
            }
        }
    } else {
        Option::None
    }
}

/// Branch 4: a plain integer with an optional unit.
pub open spec fn spec_integer_branch(s: Seq<u8>, lo: int, hi: int) -> Option<AmountM> {
    let de = spec_skip_digits(s, lo, hi);
    if de == lo {
        Option::None
    } else {
        let v = spec_digits_val(s, lo, de);
        if v <= 0xffff_ffff {
            match spec_unit_from(s, de, hi) {
                Option::Some(u) => Option::Some(
                    AmountM { factor: Option::Some(FactorM::Integer(v as u32)), unit: u },
                ),
                Option::None => Option::None,
            }
        } else {
            Option::None
        }
    }
}

/// What the amount grammar makes of the byte range `a..b` of `s`: the range
/// is clamped to the text, trimmed, and run through the five branches in
/// precedence order. It always produces an amount; the fallback keeps the
/// whole trimmed text as the unit.
pub open spec fn spec_amount(s: Seq<u8>, a: int, b: int) -> AmountM {
    let hi0 = if b > s.len() {
        s.len() as int
    } else {
        b
    };
    let lo1 = if a < 0 {
        0int
    } else {
        a
    };
    let lo0 = if lo1 > hi0 {
        hi0
    } else {
        lo1
    };
    let t = spec_trim(s, lo0, hi0);
    let lo = t.0;
    let hi = t.1;
    match spec_slash_branch(s, lo, hi) {
        Option::Some(m) => m,
        Option::None => match spec_vulgar_branch(s, lo, hi) {
            Option::Some(m) => m,
            Option::None => match spec_decimal_branch(s, lo, hi) {
                Option::Some(m) => m,
                Option::None => match spec_integer_branch(s, lo, hi) {
                    Option::Some(m) => m,
                    Option::None => AmountM {
                        factor: Option::None,
                        unit: if lo == hi {
                            Option::None
                        } else {
                            Option::Some(s.subrange(lo, hi))
                        },
                    },
                },
            },
        },
    }
}

/// All bytes of a digit run really are digits.
pub proof fn lemma_skip_digits_all(s: Seq<u8>, lo: int, hi: int)
    ensures
        forall|j: int| lo <= j < spec_skip_digits(s, lo, hi) ==> is_digit(s[j]),
        lo <= spec_skip_digits(s, lo, hi),
        spec_skip_digits(s, lo, hi) <= hi || spec_skip_digits(s, lo, hi) == lo,
    decreases hi - lo,
{
    if lo < hi && 0 <= lo < s.len() && is_digit(s[lo]) {
        lemma_skip_digits_all(s, lo + 1, hi);
    }
}

/// The vulgar-fraction table, on a byte slice.
fn vulgar_at(s: &[u8], i: usize, hi: usize) -> (r: Option<(u16, u16, usize)>)
    requires
        i <= hi <= s@.len(),
    ensures
        match (r, spec_vulgar_at(s@, i as int, hi as int)) {
            (Option::None, Option::None) => true,
            (Option::Some(e), Option::Some(m)) => e.0 == m.0 && e.1 == m.1 && e.2 == m.2,
            _ => false,
        },
{
    if i >= hi {
        return None;
    }
    let b0 = *vstd::slice::slice_index_get(s, i);
    if hi - i > 1 && b0 == 0xc2 {
        let b1 = *vstd::slice::slice_index_get(s, i + 1);
        if b1 == 0xbc {
            Some((1, 4, 2))
        } else if b1 == 0xbd {
            Some((1, 2, 2))
        } else if b1 == 0xbe {
            Some((3, 4, 2))
        } else {
            None
        }
    } else if hi - i > 2 && b0 == 0xe2 {
        let b1 = *vstd::slice::slice_index_get(s, i + 1);
        let b2 = *vstd::slice::slice_index_get(s, i + 2);
        if b1 == 0x85 && 0x90 <= b2 && b2 <= 0x9e {
            let nd: (u16, u16) = if b2 == 0x90 {
                (1, 7)
            } else if b2 == 0x91 {
                (1, 9)
            } else if b2 == 0x92 {
                (1, 10)
            } else if b2 == 0x93 {
                (1, 3)
            } else if b2 == 0x94 {
                (2, 3)
            } else if b2 == 0x95 {
                (1, 5)
            } else if b2 == 0x96 {
                (2, 5)
            } else if b2 == 0x97 {
                (3, 5)
            } else if b2 == 0x98 {
                (4, 5)
            } else if b2 == 0x99 {
                (1, 6)
            } else if b2 == 0x9a {
                (5, 6)
            } else if b2 == 0x9b {
                (1, 8)
            } else if b2 == 0x9c {
                (3, 8)
            } else if b2 == 0x9d {
                (5, 8)
            } else {
                (7, 8)
            };
            Some((nd.0, nd.1, 3))
        } else if b1 == 0x86 && b2 == 0x89 {
            Some((0, 3, 3))
        } else {
            None
        }
    } else {
        None
    }
}

/// Decodes a Unicode vulgar-fraction character into its numerator and
/// denominator pair.
pub fn decode_unicode_fraction(s: &str) -> (r: (u16, u16))
    requires
        ({
            let b = s.spec_bytes();
            match spec_vulgar_at(b, 0, b.len() as int) {
                Option::Some(t) => t.2 == b.len(),
                Option::None => false,
            }
        }),
    ensures
        ({
            let b = s.spec_bytes();
            match spec_vulgar_at(b, 0, b.len() as int) {
                Option::Some(t) => r.0 == t.0 && r.1 == t.1,
                Option::None => false,
            }
        }),
{
    let b = s.as_bytes();
    match vulgar_at(b, 0, b.len()) {
        Some(t) => (t.0, t.1),
        None => (0, 0),
    }
}

/// Whether `s[lo..hi]` holds a newline byte.
fn has_nl(s: &[u8], lo: usize, hi: usize) -> (r: bool)
    requires
        lo <= hi <= s@.len(),
    ensures
        r == spec_has_nl(s@, lo as int, hi as int),
{
    let mut j: usize = lo;
    loop
        invariant
            lo <= j <= hi <= s@.len(),
            forall|k: int| lo <= k < j ==> s@[k] != 10,
        ensures
            j == hi || (j < hi && s@[j as int] == 10),
            forall|k: int| lo <= k < j ==> s@[k] != 10,
        decreases hi - j,
    {
        if j >= hi {
            break ;
        }
        if *vstd::slice::slice_index_get(s, j) == 10 {
            break ;
        }
        j = j + 1;
    }
    j < hi
}

/// The optional trailing unit that starts at `u`, materialized as text.
fn unit_from(s: &[u8], u: usize, hi: usize) -> (r: Option<Option<String>>)
    requires
        u <= hi <= s@.len(),
    ensures
        match (r, spec_unit_from(s@, u as int, hi as int)) {
            (Option::None, Option::None) => true,
            (Option::Some(eu), Option::Some(mu)) => opt_text_matches(eu, mu),
            _ => false,
        },
{
    let w = skip_ws(s, u, hi);
    if w >= hi {
        Some(None)
    } else if has_nl(s, w, hi) {
        None
    } else {
        let piece = slice_vec(s, w, hi);
        Some(Some(bytes_to_string(piece.as_slice())))
    }
}

/// Branch 1, executable.
fn try_slash(s: &[u8], lo: usize, hi: usize) -> (r: Option<Amount>)
    requires
        lo <= hi <= s@.len(),
    ensures
        match (r, spec_slash_branch(s@, lo as int, hi as int)) {
            (Option::None, Option::None) => true,
            (Option::Some(a), Option::Some(m)) => amount_matches(a, m),
            _ => false,
        },
{
    let d1e = skip_digits(s, lo, hi);
    if d1e == lo {
        return None;
    }
    let w1 = skip_ws(s, d1e, hi);
    let whole_present = w1 > d1e && w1 < hi && {
        let b = *vstd::slice::slice_index_get(s, w1);
        48 <= b && b <= 57
    };
    if whole_present {
        let d2e = skip_digits(s, w1, hi);
        slash_after_num(s, lo, d1e, w1, d2e, hi)
    } else {
        slash_after_num(s, lo, lo, lo, d1e, hi)
    }
}

fn slash_after_num(s: &[u8], wlo: usize, whi: usize, nlo: usize, nhi: usize, hi: usize) -> (r:
    Option<Amount>)
    requires
        wlo <= whi <= hi <= s@.len(),
        nlo <= nhi <= hi,
        whi == spec_skip_digits(s@, wlo as int, hi as int) || whi == wlo,
        nhi == spec_skip_digits(s@, nlo as int, hi as int),
    ensures
        match (r, spec_slash_after_num(s@, wlo as int, whi as int, nlo as int, nhi as int,
        hi as int)) {
            (Option::None, Option::None) => true,
            (Option::Some(a), Option::Some(m)) => amount_matches(a, m),
            _ => false,
        },
{
    let sl = skip_ws(s, nhi, hi);
    if !(sl < hi && *vstd::slice::slice_index_get(s, sl) == 47) {
        return None;
    }
    let ds = skip_ws(s, sl + 1, hi);
    let de = skip_digits(s, ds, hi);
    if de == ds {
        return None;
    }
    proof {
        lemma_skip_digits_all(s@, wlo as int, hi as int);
        lemma_skip_digits_all(s@, nlo as int, hi as int);
        lemma_skip_digits_all(s@, ds as int, hi as int);
        lemma_digits_val_nonneg(s@, wlo as int, whi as int);
        lemma_digits_val_nonneg(s@, nlo as int, nhi as int);
        lemma_digits_val_nonneg(s@, ds as int, de as int);
    }
    let wv = digits_val_capped(s, wlo, whi, 0xffff);
    let nv = digits_val_capped(s, nlo, nhi, 0xffff);
    let dv = digits_val_capped(s, ds, de, 0xffff);
    if wv > 0xffff || nv > 0xffff || dv > 0xffff {
        return None;
    }
    proof {
        assert(wv * dv <= 0xffff * 0xffff) by (nonlinear_arith)
            requires
                wv <= 0xffff,
                dv <= 0xffff,
        ;
    }
    let combined: u64 = wv * dv + nv;
    if combined > 0xffff {
        return None;
    }
    match unit_from(s, de, hi) {
        Some(u) => Some(
            Amount { factor: Some(Factor::Fraction(combined as u16, dv as u16)), unit: u },
        ),
        None => None,
    }
}

/// Branch 2, executable.
fn try_vulgar(s: &[u8], lo: usize, hi: usize) -> (r: Option<Amount>)
    requires
        lo <= hi <= s@.len(),
    ensures
        match (r, spec_vulgar_branch(s@, lo as int, hi as int)) {
            (Option::None, Option::None) => true,
            (Option::Some(a), Option::Some(m)) => amount_matches(a, m),
            _ => false,
        },
{
    let d1e = skip_digits(s, lo, hi);
    let w1 = skip_ws(s, d1e, hi);
    if d1e > lo && w1 > d1e && vulgar_at(s, w1, hi).is_some() {
        vulgar_tail(s, lo, d1e, w1, hi)
    } else if vulgar_at(s, lo, hi).is_some() {
        vulgar_tail(s, lo, lo, lo, hi)
    } else {
        None
    }
}

fn vulgar_tail(s: &[u8], wlo: usize, whi: usize, sym: usize, hi: usize) -> (r: Option<Amount>)
    requires
        wlo <= whi <= hi <= s@.len(),
        sym <= hi,
        whi == spec_skip_digits(s@, wlo as int, hi as int) || whi == wlo,
        spec_vulgar_at(s@, sym as int, hi as int) is Some,
    ensures
        match (r, spec_vulgar_tail(s@, wlo as int, whi as int, sym as int, hi as int)) {
            (Option::None, Option::None) => true,
            (Option::Some(a), Option::Some(m)) => amount_matches(a, m),
            _ => false,
        },
{
    let t = match vulgar_at(s, sym, hi) {
        Some(t) => t,
        None => (0, 0, 0),
    };
    let n = t.0;
    let d = t.1;
    let len = t.2;
    proof {
        lemma_skip_digits_all(s@, wlo as int, hi as int);
        lemma_digits_val_nonneg(s@, wlo as int, whi as int);
    }
    let wv = digits_val_capped(s, wlo, whi, 0xffff);
    if wv > 0xffff {
        return None;
    }
    proof {
        assert(wv * (d as u64) <= 0xffff * 0xffff) by (nonlinear_arith)
            requires
                wv <= 0xffff,
                d <= 0xffff,
        ;
    }
    let combined: u64 = wv * (d as u64) + (n as u64);
    if combined > 0xffff {
        return None;
    }
    match unit_from(s, sym + len, hi) {
        Some(u) => Some(Amount { factor: Some(Factor::Fraction(combined as u16, d)), unit: u }),
        None => None,
    }
}

/// Branch 3, executable.
fn try_decimal(s: &[u8], lo: usize, hi: usize) -> (r: Option<Amount>)
    requires
        lo <= hi <= s@.len(),
    ensures
        match (r, spec_decimal_branch(s@, lo as int, hi as int)) {
            (Option::None, Option::None) => true,
            (Option::Some(a), Option::Some(m)) => amount_matches(a, m),
            _ => false,
        },
{
    let ie = skip_digits(s, lo, hi);
    if !(ie < hi) {
        return None;
    }
    let sep = *vstd::slice::slice_index_get(s, ie);
    if !(sep == 46 || sep == 44) {
        return None;
    }
    let fs = ie + 1;
    let fe = skip_digits(s, fs, hi);
    if fe == fs {
        return None;
    }
    match unit_from(s, fe, hi) {
        Some(u) => {
            let mut digits = slice_vec(s, lo, ie);
            digits.push(46);
            let mut frac = slice_vec(s, fs, fe);
            digits.append(&mut frac);
            proof {
                assert(digits@ =~= s@.subrange(lo as int, ie as int) + seq![46u8] + s@.subrange(
                    fs as int,
                    fe as int,
                ));
            }
            Some(Amount { factor: Some(Factor::Decimal(digits)), unit: u })
        },
        None => None,
    }
}

/// Branch 4, executable.
fn try_integer(s: &[u8], lo: usize, hi: usize) -> (r: Option<Amount>)
    requires
        lo <= hi <= s@.len(),
    ensures
        match (r, spec_integer_branch(s@, lo as int, hi as int)) {
            (Option::None, Option::None) => true,
            (Option::Some(a), Option::Some(m)) => amount_matches(a, m),
            _ => false,
        },
{
    let de = skip_digits(s, lo, hi);
    if de == lo {
        return None;
    }
    proof {
        lemma_skip_digits_all(s@, lo as int, hi as int);
        lemma_digits_val_nonneg(s@, lo as int, de as int);
    }
    let v = digits_val_capped(s, lo, de, 0xffff_ffff);
    if v > 0xffff_ffff {
        return None;
    }
    match unit_from(s, de, hi) {
        Some(u) => Some(Amount { factor: Some(Factor::Integer(v as u32)), unit: u }),
        None => None,
    }
}

/// Parses the byte range `start..end` of `src` as an amount. Never fails:
/// when no numeric pattern matches, the whole trimmed text becomes the
/// unit and the factor is absent.
pub fn parse_amount(src: &[u8], start: usize, end: usize) -> (a: Amount)
    ensures
        amount_matches(a, spec_amount(src@, start as int, end as int)),
{
    let len = src.len();
    let hi0 = if end > len {
        len
    } else {
        end
    };
    let lo0 = if start > hi0 {
        hi0
    } else {
        start
    };
    let t = trim(src, lo0, hi0);
    let lo = t.0;
    let hi = t.1;
    if let Some(a) = try_slash(src, lo, hi) {
        return a;
    }
    if let Some(a) = try_vulgar(src, lo, hi) {
        return a;
    }
    if let Some(a) = try_decimal(src, lo, hi) {
        return a;
    }
    if let Some(a) = try_integer(src, lo, hi) {
        return a;
    }
    let unit = if lo == hi {
        None
    } else {
        let piece = slice_vec(src, lo, hi);
        Some(bytes_to_string(piece.as_slice()))
    };
    Amount { factor: None, unit }
}

} // verus!
