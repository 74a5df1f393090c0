//! The volume producer: parsing the audio collaborators' output and
//! formatting the volume fragment.
//!
//! The mute and level queries answer with short text ("true", "42"); the
//! event subscription emits lines, of which only those mentioning a sink
//! trigger a resample.

use crate::bytes::slice_matches_at;
use crate::digits::{append_i64, signed_dec_digits};
use vstd::prelude::*;

verus! {

/// ASCII whitespace, as the queries' output is trimmed of it.
pub open spec fn is_space(b: u8) -> bool {
    b == 32 || (9 <= b <= 13)
}

/// `s` with leading whitespace removed.
pub open spec fn trim_start(s: Seq<u8>) -> Seq<u8>
    decreases s.len(),
{
    if s.len() > 0 && is_space(s[0]) {
        trim_start(s.drop_first())
    } else {
        s
    }
}

/// `s` with trailing whitespace removed.
pub open spec fn trim_end(s: Seq<u8>) -> Seq<u8>
    decreases s.len(),
{
    if s.len() > 0 && is_space(s[s.len() - 1]) {
        trim_end(s.drop_last())
    } else {
        s
    }
}

/// `s` with whitespace removed at both ends.
pub open spec fn trimmed(s: Seq<u8>) -> Seq<u8> {
    trim_end(trim_start(s))
}

proof fn lemma_trim_start_at(s: Seq<u8>, i: int)
    requires
        0 <= i <= s.len(),
        forall|k: int| 0 <= k < i ==> is_space(s[k]),
        i == s.len() || !is_space(s[i]),
    ensures
        trim_start(s) == s.subrange(i, s.len() as int),
    decreases i,
{
    if i == 0 {
        assert(trim_start(s) =~= s.subrange(0, s.len() as int));
    } else {
        let t = s.drop_first();
        assert(forall|k: int| 0 <= k < i - 1 ==> is_space(t[k]));
        lemma_trim_start_at(t, i - 1);
        assert(t.subrange(i - 1, t.len() as int) =~= s.subrange(i, s.len() as int));
    }
}

proof fn lemma_trim_end_at(s: Seq<u8>, j: int)
    requires
        0 <= j <= s.len(),
        forall|k: int| j <= k < s.len() ==> is_space(s[k]),
        j == 0 || !is_space(s[j - 1]),
    ensures
        trim_end(s) == s.subrange(0, j),
    decreases s.len() - j,
{
    if j == s.len() {
        assert(trim_end(s) =~= s.subrange(0, j));
    } else {
        let t = s.drop_last();
        assert(forall|k: int| j <= k < t.len() ==> is_space(t[k]));
        lemma_trim_end_at(t, j);
        assert(t.subrange(0, j) =~= s.subrange(0, j));
    }
}

/// Whether a byte is ASCII whitespace.
fn is_space_byte(b: u8) -> (r: bool)
    ensures
        r == is_space(b),
{
    b == 32 || (9 <= b && b <= 13)
}

/// The bounds of `s` with whitespace trimmed at both ends: the trimmed text
/// is exactly `s[lo..hi]`.
pub fn trim_bounds(s: &[u8]) -> (r: (usize, usize))
    ensures
        r.0 <= r.1 <= s@.len(),
        s@.subrange(r.0 as int, r.1 as int) == trimmed(s@),
{
    let n = s.len();
    let mut lo: usize = 0;
    while lo < n && is_space_byte(s[lo])
        invariant
            0 <= lo <= n,
            forall|k: int| 0 <= k < lo ==> is_space(s@[k]),
        decreases n - lo,
    {
        lo += 1;
    }
    let mut hi: usize = n;
    while hi > lo && is_space_byte(s[hi - 1])
        invariant
            lo <= hi <= n,
            forall|k: int| hi <= k < n ==> is_space(s@[k]),
        decreases hi,
    {
        hi -= 1;
    }
    proof {
        lemma_trim_start_at(s@, lo as int);
        let t = s@.subrange(lo as int, n as int);
        assert(forall|k: int| hi - lo <= k < t.len() ==> is_space(t[k]));
        if hi > lo {
            assert(t[hi - lo - 1] == s@[hi - 1]);
        }
        lemma_trim_end_at(t, hi - lo);
        assert(t.subrange(0, hi - lo) =~= s@.subrange(lo as int, hi as int));
    }
    (lo, hi)
}

/// The text that the mute query answers when the sink is muted.
pub open spec fn mute_true_token() -> Seq<u8> {
    seq![116u8, 114u8, 117u8, 101u8]
}

/// Whether the mute query's raw output says "true" (after trimming).
pub open spec fn mute_output_true(s: Seq<u8>) -> bool {
    trimmed(s) == mute_true_token()
}

/// Parse the mute query's output: true exactly when the trimmed output is
/// the word "true".
pub fn parse_mute(out: &[u8]) -> (r: bool)
    ensures
        r == mute_output_true(out@),
{
    let (lo, hi) = trim_bounds(out);
    if hi - lo == 4 && out[lo] == 116 && out[lo + 1] == 114 && out[lo + 2] == 117 && out[lo + 3]
        == 101 {
        proof {
            assert(trimmed(out@) =~= mute_true_token());
        }
        true
    } else {
        proof {
            if trimmed(out@) == mute_true_token() {
                assert(out@.subrange(lo as int, hi as int).len() == 4);
                assert(out@[lo as int] == 116 && out@[lo + 1] == 114 && out@[lo + 2] == 117
                    && out@[lo + 3] == 101) by {
                    assert(out@.subrange(lo as int, hi as int)[0] == 116);
                    assert(out@.subrange(lo as int, hi as int)[1] == 114);
                    assert(out@.subrange(lo as int, hi as int)[2] == 117);
                    assert(out@.subrange(lo as int, hi as int)[3] == 101);
                }
            }
        }
        false
    }
}

/// An ASCII decimal digit.
pub open spec fn is_digit(b: u8) -> bool {
    48 <= b <= 57
}

/// Whether every byte of `s` is a decimal digit.
pub open spec fn all_digits(s: Seq<u8>) -> bool {
    forall|i: int| 0 <= i < s.len() ==> is_digit(#[trigger] s[i])
}

/// The numeric value of a string of decimal digits, most significant first.
pub open spec fn dec_value(s: Seq<u8>) -> int
    decreases s.len(),
{
    if s.len() == 0 {
        0
    } else {
        dec_value(s.drop_last()) * 10 + (s[s.len() - 1] - 48)
    }
}

/// The integer a token denotes, the way a strict decimal parse reads it: an
/// optional sign, then one or more digits, nothing else.
pub open spec fn int_token_value(s: Seq<u8>) -> Option<int> {
    if s.len() > 0 && (s[0] == 43 || s[0] == 45) {
        if s.len() > 1 && all_digits(s.drop_first()) {
            if s[0] == 45 {
                Some(-dec_value(s.drop_first()))
            } else {
                Some(dec_value(s.drop_first()))
            }
        } else {
            None
        }
    } else if s.len() > 0 && all_digits(s) {
        Some(dec_value(s))
    } else {
        None
    }
}

/// What the level query's raw output denotes: its trimmed text read as a
/// decimal integer, if it is one and fits a 32-bit value.
pub open spec fn volume_of_output(s: Seq<u8>) -> Option<int> {
    match int_token_value(trimmed(s)) {
        Some(v) => if i32::MIN <= v <= i32::MAX {
            Some(v)
        } else {
            None
        },
        None => None,
    }
}

proof fn lemma_dec_value_nonneg(s: Seq<u8>)
    requires
        all_digits(s),
    ensures
        dec_value(s) >= 0,
    decreases s.len(),
{
    if s.len() > 0 {
        assert(all_digits(s.drop_last()));
        lemma_dec_value_nonneg(s.drop_last());
    }
}

proof fn lemma_dec_value_prefix_le(s: Seq<u8>, m: int)
    requires
        all_digits(s),
        0 <= m <= s.len(),
    ensures
        dec_value(s.subrange(0, m)) <= dec_value(s),
    decreases s.len() - m,
{
    if m == s.len() {
        assert(s.subrange(0, m) =~= s);
    } else {
        lemma_dec_value_prefix_le(s, m + 1);
        let p = s.subrange(0, m + 1);
        assert(all_digits(p));
        assert(p.drop_last() =~= s.subrange(0, m));
        lemma_dec_value_nonneg(s.subrange(0, m));
        assert(dec_value(p) == dec_value(s.subrange(0, m)) * 10 + (s[m] - 48));
    }
}

/// Parse the level query's output: the trimmed text read as a decimal
/// integer with an optional sign, `None` when it is malformed or does not
/// fit a 32-bit value.
pub fn parse_volume(out: &[u8]) -> (r: Option<i32>)
    ensures
        match r {
            Some(v) => volume_of_output(out@) == Some(v as int),
            None => volume_of_output(out@) is None,
        },
{
    let (lo, hi) = trim_bounds(out);
    let ghost t = trimmed(out@);
    if lo == hi {
        return None;
    }
    let mut neg = false;
    let mut j = lo;
    if out[lo] == 43 {
        j = lo + 1;
    } else if out[lo] == 45 {
        neg = true;
        j = lo + 1;
    }
    if j == hi {
        return None;
    }
    let ghost digits = out@.subrange(j as int, hi as int);
    proof {
        if j > lo {
            assert(digits =~= t.drop_first());
        } else {
            assert(digits =~= t);
        }
    }
    let mut acc: i64 = 0;
    let mut k = j;
    while k < hi
        invariant
            j <= k <= hi,
            0 <= acc <= 0x8000_0000,
            acc == dec_value(out@.subrange(j as int, k as int)),
            forall|m: int| j <= m < k ==> is_digit(#[trigger] out@[m]),
        decreases hi - k,
    {
        let b = out[k];
        if b < 48 || b > 57 {
            proof {
                assert(!is_digit(digits[k - j]));
                assert(!all_digits(digits));
            }
            return None;
        }
        acc = acc * 10 + ((b - 48) as i64);
        k += 1;
        proof {
            assert(out@.subrange(j as int, k as int).drop_last() =~= out@.subrange(
                j as int,
                k as int - 1,
            ));
        }
        if acc > 0x8000_0000 {
            proof {
                if all_digits(digits) {
                    assert(out@.subrange(j as int, k as int) =~= digits.subrange(0, k - j));
                    lemma_dec_value_prefix_le(digits, k - j);
                }
            }
            return None;
        }
    }
    proof {
        assert(digits =~= out@.subrange(j as int, hi as int));
        assert(all_digits(digits));
        assert(dec_value(digits) == acc);
    }
    if neg {
        if acc == 0x8000_0000 {
            Some(i32::MIN)
        } else {
            Some((-acc) as i32)
        }
    } else {
        if acc == 0x8000_0000 {
            None
        } else {
            Some(acc as i32)
        }
    }
}

/// The speaker glyph for a numeric level: quiet up to 33, middling up to
/// 66, loud above (and for any level outside the expected range).
pub open spec fn speaker_glyph(v: int) -> Seq<char> {
    if 0 <= v <= 33 {
        "🔈"@
    } else if 34 <= v <= 66 {
        "🔉"@
    } else {
        "🔊"@
    }
}

/// The volume fragment.  A muted sink shows the mute glyph whatever the
/// level; otherwise a known level shows its glyph and value; with neither
/// query answered the fragment is empty.
pub open spec fn volume_spec(muted: Option<bool>, level: Option<i32>) -> Seq<char> {
    if muted == Some(true) {
        "🔇 ⸱ "@
    } else {
        match level {
            Some(v) => speaker_glyph(v as int) + " "@ + signed_dec_digits(v as int) + " ⸱ "@,
            None => Seq::empty(),
        }
    }
}

/// The volume fragment for the two queries' results.
pub fn volume(muted: Option<bool>, level: Option<i32>) -> (r: String)
    ensures
        r@ == volume_spec(muted, level),
{
    if let Some(true) = muted {
        return String::from_str("🔇 ⸱ ");
    }
    match level {
        Some(v) => {
            let mut r =
                if 0 <= v && v <= 33 {
                    String::from_str("🔈")
                } else if 34 <= v && v <= 66 {
                    String::from_str("🔉")
                } else {
                    String::from_str("🔊")
                };
            r.append(" ");
            append_i64(&mut r, v as i64);
            r.append(" ⸱ ");
            proof {
                assert(r@ =~= volume_spec(muted, level));
            }
            r
        },
        None => String::new(),
    }
}

/// Muted wins: the fragment for a muted sink is the same whatever the
/// numeric level reads.
pub proof fn lemma_mute_overrides_level(l1: Option<i32>, l2: Option<i32>)
    ensures
        volume_spec(Some(true), l1) == volume_spec(Some(true), l2),
{
}

/// The marker that picks the resampling lines out of the event stream.
pub open spec fn sink_marker() -> Seq<u8> {
    seq![111u8, 110u8, 32u8, 115u8, 105u8, 110u8, 107u8]
}

/// Whether the marker occurs in `s` at position `i`.
pub open spec fn marker_at(s: Seq<u8>, i: int) -> bool {
    0 <= i && i + sink_marker().len() <= s.len() && s.subrange(i, i + sink_marker().len() as int)
        == sink_marker()
}

/// Whether a line of the event stream mentions a sink.
pub open spec fn mentions_sink(s: Seq<u8>) -> bool {
    exists|i: int| marker_at(s, i)
}

/// Whether an event line triggers a resample: only lines mentioning a sink
/// do; all others are discarded.
pub fn is_sink_event(line: &[u8]) -> (r: bool)
    ensures
        r == mentions_sink(line@),
{
    let marker: Vec<u8> = sink_marker_vec();
    let n = line.len();
    if n < 7 {
        return false;
    }
    let mut i: usize = 0;
    while i <= n - 7
        invariant
            0 <= i <= n - 6,
            n == line@.len(),
            7 <= n,
            forall|k: int| 0 <= k < i ==> !marker_at(line@, k),
        decreases n - i,
    {
        if slice_matches_at(line, i, marker.as_slice()) {
            proof {
                assert(marker_at(line@, i as int));
            }
            return true;
        }
        i += 1;
    }
    proof {
        assert forall|k: int| !marker_at(line@, k) by {
            if k > n - 7 {
                assert(!marker_at(line@, k));
            }
        }
    }
    false
}

/// The sink marker as bytes.
fn sink_marker_vec() -> (r: Vec<u8>)
    ensures
        r@ == sink_marker(),
{
    let mut r: Vec<u8> = Vec::new();
    r.push(111);
    r.push(110);
    r.push(32);
    r.push(115);
    r.push(105);
    r.push(110);
    r.push(107);
    proof {
        assert(r@ =~= sink_marker());
    }
    r
}

} // verus!
