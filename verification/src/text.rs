//! Byte-level text helpers: whitespace classification over UTF-8 bytes,
//! trimming, digit runs, and comma splitting.

use vstd::prelude::*;

verus! {

/// An ASCII whitespace byte.
pub open spec fn is_ws1(b: u8) -> bool {
    b == 9 || b == 10 || b == 11 || b == 12 || b == 13 || b == 32
}

/// A newline byte, as far as newline trimming cares.
pub open spec fn is_nl(b: u8) -> bool {
    b == 10 || b == 13
}

/// An ASCII decimal digit.
pub open spec fn is_digit(b: u8) -> bool {
    48 <= b <= 57
}

/// The byte length (1, 2 or 3) of the encoding of a whitespace character
/// that starts at `i` within `s[..hi]`, or 0 if none starts there. The
/// recognized characters are exactly the Unicode `White_Space` set.
pub open spec fn ws_len_at(s: Seq<u8>, i: int, hi: int) -> int {
    if i < 0 || i >= hi || hi > s.len() {
        0
    } else if is_ws1(s[i]) {
        1
    } else if i + 1 < hi && s[i] == 0xc2 && (s[i + 1] == 0x85 || s[i + 1] == 0xa0) {
        2
    } else if i + 2 < hi && s[i] == 0xe1 && s[i + 1] == 0x9a && s[i + 2] == 0x80 {
        3
    } else if i + 2 < hi && s[i] == 0xe2 && s[i + 1] == 0x80 && (0x80 <= s[i + 2] <= 0x8a
        || s[i + 2] == 0xa8 || s[i + 2] == 0xa9 || s[i + 2] == 0xaf) {
        3
    } else if i + 2 < hi && s[i] == 0xe2 && s[i + 1] == 0x81 && s[i + 2] == 0x9f {
        3
    } else if i + 2 < hi && s[i] == 0xe3 && s[i + 1] == 0x80 && s[i + 2] == 0x80 {
        3
    } else {
        0
    }
}

/// First position at or after `lo` in `s[..hi]` where no whitespace
/// character starts.
pub open spec fn spec_skip_ws(s: Seq<u8>, lo: int, hi: int) -> int
    decreases hi - lo,
{
    let k = ws_len_at(s, lo, hi);
    if lo >= hi || k == 0 {
        lo
    } else {
        spec_skip_ws(s, lo + k, hi)
    }
}

/// Position left of `hi` after dropping every whitespace character that
/// ends the range `s[lo..hi]`.
pub open spec fn spec_rskip_ws(s: Seq<u8>, lo: int, hi: int) -> int
    decreases hi - lo,
{
    if hi <= lo {
        hi
    } else if ws_len_at(s, hi - 1, hi) == 1 {
        spec_rskip_ws(s, lo, hi - 1)
    } else if hi - 2 >= lo && ws_len_at(s, hi - 2, hi) == 2 {
        spec_rskip_ws(s, lo, hi - 2)
    } else if hi - 3 >= lo && ws_len_at(s, hi - 3, hi) == 3 {
        spec_rskip_ws(s, lo, hi - 3)
    } else {
        hi
    }
}

/// The subrange of `s[lo..hi]` left after trimming whitespace on both ends,
/// as a pair of positions.
pub open spec fn spec_trim(s: Seq<u8>, lo: int, hi: int) -> (int, int) {
    let l = spec_skip_ws(s, lo, hi);
    let r = spec_rskip_ws(s, l, hi);
    (l, r)
}

/// First position at or after `lo` in `s[..hi]` that is not a newline byte.
pub open spec fn spec_skip_nl(s: Seq<u8>, lo: int, hi: int) -> int
    decreases hi - lo,
{
    if lo < hi && 0 <= lo < s.len() && is_nl(s[lo]) {
        spec_skip_nl(s, lo + 1, hi)
    } else {
        lo
    }
}

/// Position left of `hi` after dropping the newline bytes that end
/// `s[lo..hi]`.
pub open spec fn spec_rskip_nl(s: Seq<u8>, lo: int, hi: int) -> int
    decreases hi - lo,
{
    if lo < hi && 0 <= hi - 1 < s.len() && is_nl(s[hi - 1]) {
        spec_rskip_nl(s, lo, hi - 1)
    } else {
        hi
    }
}

/// The subrange of `s[lo..hi]` left after trimming newline bytes on both
/// ends, as a pair of positions.
pub open spec fn spec_trim_nl(s: Seq<u8>, lo: int, hi: int) -> (int, int) {
    let l = spec_skip_nl(s, lo, hi);
    let r = spec_rskip_nl(s, l, hi);
    (l, r)
}

/// First position at or after `lo` in `s[..hi]` that is not a digit.
pub open spec fn spec_skip_digits(s: Seq<u8>, lo: int, hi: int) -> int
    decreases hi - lo,
{
    if lo < hi && 0 <= lo < s.len() && is_digit(s[lo]) {
        spec_skip_digits(s, lo + 1, hi)
    } else {
        lo
    }
}

/// The numeric value of the digit run `s[lo..hi]`.
pub open spec fn spec_digits_val(s: Seq<u8>, lo: int, hi: int) -> int
    decreases hi - lo,
{
    if lo >= hi || hi > s.len() || hi <= 0 {
        0
    } else {
        spec_digits_val(s, lo, hi - 1) * 10 + (s[hi - 1] - 48)
    }
}

/// Whether position `p` of `s[lo..hi]` holds a comma that separates two
/// list entries. A comma standing directly between two digits does not
/// separate: it is part of a decimal numeral.
pub open spec fn is_split_comma(s: Seq<u8>, lo: int, hi: int, p: int) -> bool {
    lo <= p < hi <= s.len() && s[p] == 44 && !(p > lo && p + 1 < hi && is_digit(s[p - 1])
        && is_digit(s[p + 1]))
}

/// First separating comma at or after `cur` in `s[lo..hi]`, or `hi` if
/// there is none.
pub open spec fn spec_find_comma(s: Seq<u8>, lo: int, hi: int, cur: int) -> int
    decreases hi - cur,
{
    if cur >= hi {
        hi
    } else if is_split_comma(s, lo, hi, cur) {
        cur
    } else {
        spec_find_comma(s, lo, hi, cur + 1)
    }
}

/// The comma-separated pieces of `s[lo..hi]`, as position pairs, in order.
/// A range with no separating comma is a single piece, so the result is
/// never empty.
pub open spec fn spec_split_commas(s: Seq<u8>, lo: int, hi: int) -> Seq<(int, int)>
    decreases hi - lo,
{
    let p = spec_find_comma(s, lo, hi, lo);
    let q = if p < lo {
        lo
    } else {
        p
    };
    if q >= hi {
        seq![(lo, hi)]
    } else {
        seq![(lo, q)] + spec_split_commas(s, q + 1, hi)
    }
}

/// Every piece of a comma split lies inside the split range.
pub proof fn lemma_split_commas_bounds(s: Seq<u8>, lo: int, hi: int)
    requires
        0 <= lo <= hi <= s.len(),
    ensures
        forall|i: int|
            0 <= i < spec_split_commas(s, lo, hi).len() ==> lo <= (#[trigger] spec_split_commas(
                s,
                lo,
                hi,
            )[i]).0 <= spec_split_commas(s, lo, hi)[i].1 <= hi,
    decreases hi - lo,
{
    lemma_find_comma_range(s, lo, hi, lo);
    let p = spec_find_comma(s, lo, hi, lo);
    if p < hi {
        lemma_split_commas_bounds(s, p + 1, hi);
        assert forall|i: int|
            0 <= i < spec_split_commas(s, lo, hi).len() implies lo <= (
        #[trigger] spec_split_commas(s, lo, hi)[i]).0 <= spec_split_commas(s, lo, hi)[i].1
            <= hi by {
            if i > 0 {
                assert(spec_split_commas(s, lo, hi)[i] == spec_split_commas(s, p + 1, hi)[i - 1]);
            }
        }
    }
}

pub proof fn lemma_find_comma_range(s: Seq<u8>, lo: int, hi: int, cur: int)
    requires
        cur <= hi,
    ensures
        cur <= spec_find_comma(s, lo, hi, cur) <= hi,
    decreases hi - cur,
{
    if cur < hi && !is_split_comma(s, lo, hi, cur) {
        lemma_find_comma_range(s, lo, hi, cur + 1);
    }
}

/// The byte length of the whitespace character starting at `i`, or 0.
pub fn ws_len(s: &[u8], i: usize, hi: usize) -> (k: usize)
    requires
        i < hi <= s@.len(),
    ensures
        k == ws_len_at(s@, i as int, hi as int),
        i + k <= hi,
{
    let b0 = *vstd::slice::slice_index_get(s, i);
    if b0 == 9 || b0 == 10 || b0 == 11 || b0 == 12 || b0 == 13 || b0 == 32 {
        1
    } else if hi - i > 1 && b0 == 0xc2 {
        let b1 = *vstd::slice::slice_index_get(s, i + 1);
        if b1 == 0x85 || b1 == 0xa0 {
            2
        } else {
            0
        }
    } else if hi - i > 2 && (b0 == 0xe1 || b0 == 0xe2 || b0 == 0xe3) {
        let b1 = *vstd::slice::slice_index_get(s, i + 1);
        let b2 = *vstd::slice::slice_index_get(s, i + 2);
        if b0 == 0xe1 && b1 == 0x9a && b2 == 0x80 {
            3
        } else if b0 == 0xe2 && b1 == 0x80 && (0x80 <= b2 && b2 <= 0x8a || b2 == 0xa8 || b2 == 0xa9
            || b2 == 0xaf) {
            3
        } else if b0 == 0xe2 && b1 == 0x81 && b2 == 0x9f {
            3
        } else if b0 == 0xe3 && b1 == 0x80 && b2 == 0x80 {
            3
        } else {
            0
        }
    } else {
        0
    }
}

/// Skips the whitespace characters that start `s[lo..hi]`.
pub fn skip_ws(s: &[u8], lo: usize, hi: usize) -> (r: usize)
    requires
        lo <= hi <= s@.len(),
    ensures
        r == spec_skip_ws(s@, lo as int, hi as int),
        lo <= r <= hi,
{
    let mut cur: usize = lo;
    loop
        invariant
            lo <= cur <= hi <= s@.len(),
            spec_skip_ws(s@, lo as int, hi as int) == spec_skip_ws(s@, cur as int, hi as int),
        ensures
            cur == spec_skip_ws(s@, lo as int, hi as int),
        decreases hi - cur,
    {
        if cur >= hi {
            break ;
        }
        let k = ws_len(s, cur, hi);
        if k == 0 {
            break ;
        }
        cur = cur + k;
    }
    cur
}

/// Drops the whitespace characters that end `s[lo..hi]`.
pub fn rskip_ws(s: &[u8], lo: usize, hi: usize) -> (r: usize)
    requires
        lo <= hi <= s@.len(),
    ensures
        r == spec_rskip_ws(s@, lo as int, hi as int),
        lo <= r <= hi,
{
    let mut cur: usize = hi;
    loop
        invariant
            lo <= cur <= hi <= s@.len(),
            spec_rskip_ws(s@, lo as int, hi as int) == spec_rskip_ws(s@, lo as int, cur as int),
        ensures
            cur == spec_rskip_ws(s@, lo as int, hi as int),
        decreases cur,
    {
        if cur <= lo {
            break ;
        }
        if ws_len(s, cur - 1, cur) == 1 {
            cur = cur - 1;
        } else if cur - lo >= 2 && ws_len(s, cur - 2, cur) == 2 {
            cur = cur - 2;
        } else if cur - lo >= 3 && ws_len(s, cur - 3, cur) == 3 {
            cur = cur - 3;
        } else {
            break ;
        }
    }
    cur
}

/// Trims whitespace from both ends of `s[lo..hi]`.
pub fn trim(s: &[u8], lo: usize, hi: usize) -> (r: (usize, usize))
    requires
        lo <= hi <= s@.len(),
    ensures
        (r.0 as int, r.1 as int) == spec_trim(s@, lo as int, hi as int),
        lo <= r.0 <= r.1 <= hi,
{
    let l = skip_ws(s, lo, hi);
    let r = rskip_ws(s, l, hi);
    (l, r)
}

/// Trims newline bytes from both ends of `s[lo..hi]`.
pub fn trim_newlines(s: &[u8], lo: usize, hi: usize) -> (r: (usize, usize))
    requires
        lo <= hi <= s@.len(),
    ensures
        (r.0 as int, r.1 as int) == spec_trim_nl(s@, lo as int, hi as int),
        lo <= r.0 <= r.1 <= hi,
{
    let mut l: usize = lo;
    loop
        invariant
            lo <= l <= hi <= s@.len(),
            spec_skip_nl(s@, lo as int, hi as int) == spec_skip_nl(s@, l as int, hi as int),
        ensures
            l == spec_skip_nl(s@, lo as int, hi as int),
        decreases hi - l,
    {
        if l >= hi {
            break ;
        }
        let b = *vstd::slice::slice_index_get(s, l);
        if b == 10 || b == 13 {
            l = l + 1;
        } else {
            break ;
        }
    }
    let mut r: usize = hi;
    loop
        invariant
            l <= r <= hi <= s@.len(),
            spec_rskip_nl(s@, l as int, hi as int) == spec_rskip_nl(s@, l as int, r as int),
        ensures
            r == spec_rskip_nl(s@, l as int, hi as int),
        decreases r,
    {
        if r <= l {
            break ;
        }
        let b = *vstd::slice::slice_index_get(s, r - 1);
        if b == 10 || b == 13 {
            r = r - 1;
        } else {
            break ;
        }
    }
    (l, r)
}

/// Skips the digit run that starts `s[lo..hi]`.
pub fn skip_digits(s: &[u8], lo: usize, hi: usize) -> (r: usize)
    requires
        lo <= hi <= s@.len(),
    ensures
        r == spec_skip_digits(s@, lo as int, hi as int),
        lo <= r <= hi,
{
    let mut cur: usize = lo;
    loop
        invariant
            lo <= cur <= hi <= s@.len(),
            spec_skip_digits(s@, lo as int, hi as int) == spec_skip_digits(
                s@,
                cur as int,
                hi as int,
            ),
        ensures
            cur == spec_skip_digits(s@, lo as int, hi as int),
        decreases hi - cur,
    {
        if cur >= hi {
            break ;
        }
        let b = *vstd::slice::slice_index_get(s, cur);
        if 48 <= b && b <= 57 {
            cur = cur + 1;
        } else {
            break ;
        }
    }
    cur
}

/// The value of the digit run `s[lo..hi]`, cut off at `cap + 1` once it
/// exceeds `cap`.
pub fn digits_val_capped(s: &[u8], lo: usize, hi: usize, cap: u64) -> (v: u64)
    requires
        lo <= hi <= s@.len(),
        cap <= 0xffff_ffff,
        forall|j: int| lo <= j < hi ==> is_digit(s@[j]),
    ensures
        spec_digits_val(s@, lo as int, hi as int) <= cap ==> v == spec_digits_val(
            s@,
            lo as int,
            hi as int,
        ),
        spec_digits_val(s@, lo as int, hi as int) > cap ==> v == cap + 1,
{
    let mut cur: usize = lo;
    let mut acc: u64 = 0;
    loop
        invariant
            lo <= cur <= hi <= s@.len(),
            cap <= 0xffff_ffff,
            forall|j: int| lo <= j < hi ==> is_digit(s@[j]),
            spec_digits_val(s@, lo as int, cur as int) <= cap ==> acc == spec_digits_val(
                s@,
                lo as int,
                cur as int,
            ),
            spec_digits_val(s@, lo as int, cur as int) > cap ==> acc == cap + 1,
            acc <= cap + 1,
        ensures
            cur == hi,
            spec_digits_val(s@, lo as int, cur as int) <= cap ==> acc == spec_digits_val(
                s@,
                lo as int,
                cur as int,
            ),
            spec_digits_val(s@, lo as int, cur as int) > cap ==> acc == cap + 1,
        decreases hi - cur,
    {
        if cur >= hi {
            break ;
        }
        let b = *vstd::slice::slice_index_get(s, cur);
        let d: u64 = (b - 48) as u64;
        proof {
            lemma_digits_val_nonneg(s@, lo as int, cur as int);
            lemma_digits_val_step(s@, lo as int, cur as int);
        }
        let t: u64 = acc * 10 + d;
        if t > cap {
            acc = cap + 1;
        } else {
            acc = t;
        }
        cur = cur + 1;
    }
    acc
}

pub proof fn lemma_digits_val_nonneg(s: Seq<u8>, lo: int, hi: int)
    requires
        forall|j: int| lo <= j < hi ==> is_digit(s[j]),
    ensures
        spec_digits_val(s, lo, hi) >= 0,
    decreases hi - lo,
{
    if !(lo >= hi || hi > s.len() || hi <= 0) {
        lemma_digits_val_nonneg(s, lo, hi - 1);
    }
}

pub proof fn lemma_digits_val_step(s: Seq<u8>, lo: int, cur: int)
    requires
        0 <= lo <= cur,
        cur < s.len(),
        forall|j: int| lo <= j <= cur ==> is_digit(s[j]),
    ensures
        spec_digits_val(s, lo, cur + 1) == spec_digits_val(s, lo, cur) * 10 + (s[cur] - 48),
        spec_digits_val(s, lo, cur + 1) >= spec_digits_val(s, lo, cur),
{
    lemma_digits_val_nonneg(s, lo, cur);
}

/// First separating comma at or after `cur`, or `hi` if there is none.
pub fn find_comma(s: &[u8], lo: usize, hi: usize, cur: usize) -> (r: usize)
    requires
        lo <= cur <= hi <= s@.len(),
    ensures
        r == spec_find_comma(s@, lo as int, hi as int, cur as int),
        cur <= r <= hi,
{
    let mut p: usize = cur;
    loop
        invariant
            lo <= cur <= p <= hi <= s@.len(),
            spec_find_comma(s@, lo as int, hi as int, cur as int) == spec_find_comma(
                s@,
                lo as int,
                hi as int,
                p as int,
            ),
        ensures
            p == spec_find_comma(s@, lo as int, hi as int, cur as int),
        decreases hi - p,
    {
        if p >= hi {
            break ;
        }
        let b = *vstd::slice::slice_index_get(s, p);
        if b == 44 {
            let flanked = p > lo && p + 1 < hi && {
                let bl = *vstd::slice::slice_index_get(s, p - 1);
                let br = *vstd::slice::slice_index_get(s, p + 1);
                48 <= bl && bl <= 57 && 48 <= br && br <= 57
            };
            if !flanked {
                break ;
            }
        }
        p = p + 1;
    }
    p
}

/// Splits `s[lo..hi]` at its separating commas, in order.
pub fn split_commas(s: &[u8], lo: usize, hi: usize) -> (r: Vec<(usize, usize)>)
    requires
        lo <= hi <= s@.len(),
    ensures
        ({
            let m = spec_split_commas(s@, lo as int, hi as int);
            &&& r@.len() == m.len()
            &&& forall|i: int|
                0 <= i < m.len() ==> (#[trigger] r@[i]).0 == m[i].0 && r@[i].1 == m[i].1
        }),
{
    let mut out: Vec<(usize, usize)> = Vec::new();
    let mut cur: usize = lo;
    loop
        invariant_except_break
            ({
                let m = spec_split_commas(s@, lo as int, hi as int);
                let rest = spec_split_commas(s@, cur as int, hi as int);
                &&& m.len() == out@.len() + rest.len()
                &&& forall|i: int|
                    0 <= i < out@.len() ==> (#[trigger] out@[i]).0 == m[i].0 && out@[i].1 == m[i].1
                &&& forall|i: int|
                    0 <= i < rest.len() ==> #[trigger] rest[i] == m[out@.len() + i]
            }),
        invariant
            lo <= cur <= hi <= s@.len(),
        ensures
            ({
                let m = spec_split_commas(s@, lo as int, hi as int);
                &&& m.len() == out@.len()
                &&& forall|i: int|
                    0 <= i < out@.len() ==> (#[trigger] out@[i]).0 == m[i].0 && out@[i].1 == m[i].1
            }),
        decreases hi - cur,
    {
        let p = find_comma(s, cur, hi, cur);
        proof {
            lemma_find_comma_range(s@, cur as int, hi as int, cur as int);
        }
        proof {
            let m = spec_split_commas(s@, lo as int, hi as int);
            let rest = spec_split_commas(s@, cur as int, hi as int);
            assert(spec_find_comma(s@, cur as int, hi as int, cur as int) == p as int);
            if p >= hi {
                assert(rest =~= seq![(cur as int, hi as int)]);
            } else {
                assert(rest =~= seq![(cur as int, p as int)] + spec_split_commas(
                    s@,
                    p as int + 1,
                    hi as int,
                ));
            }
            assert(rest[0] == (cur as int, p as int) || rest[0] == (cur as int, hi as int));
            assert(m[out@.len() as int] == rest[0]);
        }
        if p >= hi {
            out.push((cur, hi));
            proof {
                let m = spec_split_commas(s@, lo as int, hi as int);
                assert forall|i: int|
                    0 <= i < out@.len() implies (#[trigger] out@[i]).0 == m[i].0 && out@[i].1
                    == m[i].1 by {}
            }
            break ;
        } else {
            out.push((cur, p));
            proof {
                let m = spec_split_commas(s@, lo as int, hi as int);
                let rest = spec_split_commas(s@, cur as int, hi as int);
                let rest2 = spec_split_commas(s@, p as int + 1, hi as int);
                assert forall|i: int| 0 <= i < rest2.len() implies #[trigger] rest2[i] == m[out@.len()
                    + i] by {
                    assert(rest2[i] == rest[i + 1]);
                }
            }
            cur = p + 1;
        }
    }
    out
}

/// A byte range clamped into `0..len`, end first.
pub open spec fn spec_clamp(len: int, a: int, b: int) -> (int, int) {
    let hi = if b > len {
        len
    } else {
        b
    };
    let lo = if a < 0 {
        0int
    } else if a > hi {
        hi
    } else {
        a
    };
    (lo, hi)
}

/// The bytes of `s[a..b]`, the range clamped into the text.
pub open spec fn spec_slice(s: Seq<u8>, a: int, b: int) -> Seq<u8> {
    let c = spec_clamp(s.len() as int, a, b);
    s.subrange(c.0, c.1)
}

/// The bytes of `s[a..b]`, clamped, with whitespace trimmed off both ends.
pub open spec fn spec_trimmed_slice(s: Seq<u8>, a: int, b: int) -> Seq<u8> {
    let c = spec_clamp(s.len() as int, a, b);
    let t = spec_trim(s, c.0, c.1);
    s.subrange(t.0, t.1)
}

/// The bytes of `s[a..b]`, clamped, with newlines trimmed off both ends;
/// absent when nothing is left.
pub open spec fn spec_nl_trimmed_text(s: Seq<u8>, a: int, b: int) -> Option<Seq<u8>> {
    let c = spec_clamp(s.len() as int, a, b);
    let t = spec_trim_nl(s, c.0, c.1);
    if t.0 == t.1 {
        Option::None
    } else {
        Option::Some(s.subrange(t.0, t.1))
    }
}

/// Clamps a byte range into `0..len`.
pub fn clamp_range(len: usize, a: usize, b: usize) -> (r: (usize, usize))
    ensures
        (r.0 as int, r.1 as int) == spec_clamp(len as int, a as int, b as int),
        r.0 <= r.1 <= len,
{
    let hi = if b > len {
        len
    } else {
        b
    };
    let lo = if a > hi {
        hi
    } else {
        a
    };
    (lo, hi)
}

/// Copies `s[lo..hi]` into an owned vector.
pub fn slice_vec(s: &[u8], lo: usize, hi: usize) -> (r: Vec<u8>)
    requires
        lo <= hi <= s@.len(),
    ensures
        r@ == s@.subrange(lo as int, hi as int),
{
    vstd::slice::slice_to_vec(vstd::slice::slice_subrange(s, lo, hi))
}

} // verus!
