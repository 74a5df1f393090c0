//! The network-link producer: parsing the routing-table query and the
//! wireless-interface listing, and classifying the default-route interface.
//!
//! The routing query's output names the outbound interface after the word
//! "dev"; the wireless listing names one interface per line, the name
//! closed by a colon at the start of the line.  The fragment shows a
//! wireless or a wired glyph for the interface carrying the default route,
//! and nothing when no route is found.

use crate::bytes::{bytes_eq, copy_range, slice_matches_at};
use vstd::prelude::*;

verus! {

/// A byte of an interface name: letter, digit or underscore.
pub open spec fn is_word_byte(b: u8) -> bool {
    (48 <= b <= 57) || (65 <= b <= 90) || (97 <= b <= 122) || b == 95
}

/// The first position at or after `i` that does not hold a word byte.
pub open spec fn word_end(s: Seq<u8>, i: int) -> int
    decreases s.len() - i,
{
    if 0 <= i < s.len() && is_word_byte(s[i]) {
        word_end(s, i + 1)
    } else {
        i
    }
}

proof fn lemma_word_end(s: Seq<u8>, i: int)
    requires
        0 <= i <= s.len(),
    ensures
        i <= word_end(s, i) <= s.len(),
        forall|k: int| i <= k < word_end(s, i) ==> is_word_byte(#[trigger] s[k]),
        word_end(s, i) == s.len() || !is_word_byte(s[word_end(s, i)]),
    decreases s.len() - i,
{
    if i < s.len() && is_word_byte(s[i]) {
        lemma_word_end(s, i + 1);
    }
}

/// Whether a byte can stand in an interface name.
fn is_word_byte_exec(b: u8) -> (r: bool)
    ensures
        r == is_word_byte(b),
{
    (48 <= b && b <= 57) || (65 <= b && b <= 90) || (97 <= b && b <= 122) || b == 95
}

/// The end of the word run beginning at `from`.
pub fn scan_word(s: &[u8], from: usize) -> (e: usize)
    requires
        from <= s@.len(),
    ensures
        e == word_end(s@, from as int),
        from <= e <= s@.len(),
{
    let n = s.len();
    let mut e = from;
    while e < n && is_word_byte_exec(s[e])
        invariant
            from <= e <= n,
            n == s@.len(),
            word_end(s@, from as int) == word_end(s@, e as int),
        decreases n - e,
    {
        e += 1;
    }
    e
}

/// The four bytes "dev " that precede the interface name in the routing
/// query's output.
pub open spec fn dev_token() -> Seq<u8> {
    seq![100u8, 101u8, 118u8, 32u8]
}

/// Whether the routing pattern matches at position `i`: the word "dev ",
/// then at least one name byte, then a space.
pub open spec fn dev_match_at(s: Seq<u8>, i: int) -> bool {
    let e = word_end(s, i + 4);
    &&& 0 <= i
    &&& i + 4 <= s.len()
    &&& s.subrange(i, i + 4) == dev_token()
    &&& e > i + 4
    &&& e < s.len()
    &&& s[e] == 32
}

/// The interface name captured by a match at `i`.
pub open spec fn dev_capture(s: Seq<u8>, i: int) -> Seq<u8> {
    s.subrange(i + 4, word_end(s, i + 4))
}

/// The leftmost match position at or after `i`, if any.
pub open spec fn find_dev(s: Seq<u8>, i: int) -> Option<int>
    decreases s.len() - i,
{
    if !(0 <= i) || i + 4 > s.len() {
        None
    } else if dev_match_at(s, i) {
        Some(i)
    } else {
        find_dev(s, i + 1)
    }
}

/// The interface carrying the default route, as the routing query's output
/// names it: the capture of the leftmost match.
pub open spec fn route_device(s: Seq<u8>) -> Option<Seq<u8>> {
    match find_dev(s, 0) {
        Some(i) => Some(dev_capture(s, i)),
        None => None,
    }
}

/// The token "dev " as bytes.
fn dev_token_vec() -> (r: Vec<u8>)
    ensures
        r@ == dev_token(),
{
    let mut r: Vec<u8> = Vec::new();
    r.push(100);
    r.push(101);
    r.push(118);
    r.push(32);
    proof {
        assert(r@ =~= dev_token());
    }
    r
}

/// Parse the routing query's output: the name of the interface that follows
/// the leftmost "dev ", or `None` when no interface is named.
pub fn parse_route_device(out: &[u8]) -> (r: Option<Vec<u8>>)
    ensures
        match r {
            Some(v) => route_device(out@) == Some(v@),
            None => route_device(out@) is None,
        },
{
    let tok = dev_token_vec();
    let n = out.len();
    if n < 4 {
        return None;
    }
    let mut i: usize = 0;
    while i <= n - 4
        invariant
            0 <= i <= n - 3,
            4 <= n == out@.len(),
            tok@ == dev_token(),
            find_dev(out@, 0) == find_dev(out@, i as int),
        decreases n - i,
    {
        if slice_matches_at(out, i, tok.as_slice()) {
            let e = scan_word(out, i + 4);
            if e > i + 4 && e < n && out[e] == 32 {
                proof {
                    assert(dev_match_at(out@, i as int));
                }
                let v = copy_range(out, i + 4, e);
                return Some(v);
            }
        }
        proof {
            assert(!dev_match_at(out@, i as int));
        }
        i += 1;
    }
    None
}

/// A line's trailing carriage return removed, the way the listing's lines
/// are read.
pub open spec fn strip_cr(line: Seq<u8>) -> Seq<u8> {
    if line.len() > 0 && line[line.len() - 1] == 13 {
        line.drop_last()
    } else {
        line
    }
}

/// The position of the first newline of `s`, or its length when it has
/// none.
pub open spec fn newline_pos(s: Seq<u8>) -> int
    decreases s.len(),
{
    if s.len() == 0 {
        0
    } else if s[0] == 10 {
        0
    } else {
        1 + newline_pos(s.drop_first())
    }
}

proof fn lemma_newline_pos_at(s: Seq<u8>, m: int)
    requires
        0 <= m <= s.len(),
        forall|k: int| 0 <= k < m ==> s[k] != 10,
        m == s.len() || s[m] == 10,
    ensures
        newline_pos(s) == m,
    decreases m,
{
    if m == 0 {
    } else {
        let t = s.drop_first();
        assert(forall|k: int| 0 <= k < m - 1 ==> t[k] != 10);
        lemma_newline_pos_at(t, m - 1);
    }
}

/// The listing split into lines: one entry per newline-separated stretch,
/// each with a trailing carriage return removed; a final stretch without a
/// newline is a line of its own, and nothing follows a final newline.
pub open spec fn split_lines(s: Seq<u8>) -> Seq<Seq<u8>>
    decreases s.len(),
{
    if s.len() == 0 {
        Seq::empty()
    } else {
        let k = newline_pos(s);
        if 0 <= k < s.len() {
            seq![strip_cr(s.subrange(0, k))] + split_lines(s.subrange(k + 1, s.len() as int))
        } else {
            seq![strip_cr(s)]
        }
    }
}

/// The interface a line of the listing names: a non-empty word run at the
/// start of the line, closed by a colon.
pub open spec fn line_name(line: Seq<u8>) -> Option<Seq<u8>> {
    let e = word_end(line, 0);
    if 0 < e && e < line.len() && line[e] == 58 {
        Some(line.subrange(0, e))
    } else {
        None
    }
}

/// The names of all lines that name an interface, in line order.
pub open spec fn names_of(lines: Seq<Seq<u8>>) -> Seq<Seq<u8>>
    decreases lines.len(),
{
    if lines.len() == 0 {
        Seq::empty()
    } else {
        match line_name(lines[0]) {
            Some(nm) => seq![nm] + names_of(lines.drop_first()),
            None => names_of(lines.drop_first()),
        }
    }
}

/// The wireless-capable interfaces the listing names.
pub open spec fn wireless_names(s: Seq<u8>) -> Seq<Seq<u8>> {
    names_of(split_lines(s))
}

proof fn lemma_word_end_subrange(s: Seq<u8>, a: int, b: int, j: int)
    requires
        0 <= a <= b <= s.len(),
        0 <= j <= b - a,
    ensures
        word_end(s.subrange(a, b), j) == if word_end(s, a + j) <= b {
            word_end(s, a + j) - a
        } else {
            b - a
        },
    decreases b - a - j,
{
    let line = s.subrange(a, b);
    if a + j < b && is_word_byte(s[a + j]) {
        lemma_word_end_subrange(s, a, b, j + 1);
    } else {
        if a + j == b && b < s.len() && is_word_byte(s[b]) {
            lemma_word_end(s, b);
        }
    }
}

/// Parse the wireless listing: the interface name of every line that has
/// one, in line order.
#[verifier::rlimit(50)]
pub fn parse_wireless_interfaces(content: &[u8]) -> (r: Vec<Vec<u8>>)
    ensures
        r.deep_view() == wireless_names(content@),
{
    let n = content.len();
    let mut acc: Vec<Vec<u8>> = Vec::new();
    let mut pos: usize = 0;
    proof {
        assert(content@.subrange(0, n as int) =~= content@);
        assert(acc.deep_view() =~= Seq::<Seq<u8>>::empty());
    }
    while pos < n
        invariant
            0 <= pos <= n,
            n == content@.len(),
            wireless_names(content@) =~= acc.deep_view() + names_of(
                split_lines(content@.subrange(pos as int, n as int)),
            ),
        decreases n - pos,
    {
        let mut k = pos;
        while k < n && content[k] != 10
            invariant
                pos <= k <= n,
                n == content@.len(),
                forall|m: int| pos <= m < k ==> content@[m] != 10,
            decreases n - k,
        {
            k += 1;
        }
        let mut end = k;
        if k > pos && content[k - 1] == 13 {
            end = k - 1;
        }
        let ghost rest = content@.subrange(pos as int, n as int);
        let ghost line = strip_cr(rest.subrange(0, k - pos));
        proof {
            lemma_newline_pos_at(rest, k - pos);
            assert(rest.subrange(0, k - pos) =~= content@.subrange(pos as int, k as int));
            if end < k {
                assert(line =~= content@.subrange(pos as int, end as int));
            } else {
                assert(line =~= content@.subrange(pos as int, end as int));
            }
        }
        let e = scan_word(content, pos);
        proof {
            lemma_word_end_subrange(content@, pos as int, end as int, 0);
            lemma_word_end(content@, pos as int);
        }
        let ghost prev = acc.deep_view();
        let ghost nm_seq: Seq<Seq<u8>> = match line_name(line) {
            Some(nm) => seq![nm],
            None => Seq::empty(),
        };
        if e > pos && e < end && content[e] == 58 {
            let nm = copy_range(content, pos, e);
            proof {
                assert(line_name(line) == Some(nm@));
            }
            acc.push(nm);
            proof {
                assert(acc.deep_view() =~~= prev + nm_seq);
            }
        } else {
            proof {
                assert(line_name(line) is None);
                assert(acc.deep_view() =~= prev + nm_seq);
            }
        }
        let ghost old_pos: int = pos as int;
        if k < n {
            pos = k + 1;
        } else {
            pos = k;
        }
        proof {
            let restp = content@.subrange(pos as int, n as int);
            if k < n {
                assert(rest.subrange(k - old_pos + 1, rest.len() as int) =~= restp);
                assert(split_lines(rest) == seq![line] + split_lines(restp));
            } else {
                assert(rest.subrange(0, k - old_pos) =~= rest);
                assert(strip_cr(rest) == line);
                assert(split_lines(rest) == seq![line]);
                assert(restp =~= Seq::<u8>::empty());
                assert(split_lines(restp) =~= Seq::<Seq<u8>>::empty());
                assert(seq![line] =~= seq![line] + split_lines(restp));
            }
            assert((seq![line] + split_lines(restp))[0] == line);
            assert((seq![line] + split_lines(restp)).drop_first() =~= split_lines(restp));
            assert(names_of(split_lines(rest)) == nm_seq + names_of(split_lines(restp)));
            assert(prev + (nm_seq + names_of(split_lines(restp))) =~= acc.deep_view() + names_of(
                split_lines(restp),
            ));
        }
    }
    proof {
        assert(content@.subrange(pos as int, n as int) =~= Seq::<u8>::empty());
        assert(acc.deep_view() =~= wireless_names(content@));
    }
    acc
}

/// The fragment glyphs: antenna for a wireless default route, arrows for a
/// wired one.
pub open spec fn network_spec(dev: Option<Seq<u8>>, wifs: Seq<Seq<u8>>) -> Seq<char> {
    match dev {
        Some(d) => if wifs.contains(d) {
            "📡 ⸱ "@
        } else {
            "⇅ ⸱ "@
        },
        None => Seq::empty(),
    }
}

/// The network fragment for the current default-route interface: the
/// wireless glyph when the interface is in the wireless set, the wired
/// glyph when it is not, and nothing when no route was found.
pub fn network_fragment(dev: &Option<Vec<u8>>, wifs: &Vec<Vec<u8>>) -> (r: String)
    ensures
        r@ == network_spec(dev.deep_view(), wifs.deep_view()),
{
    match dev {
        Some(d) => {
            proof {
                assert(d.deep_view() =~= d@);
            }
            let mut found = false;
            let mut i: usize = 0;
            while i < wifs.len()
                invariant
                    0 <= i <= wifs@.len(),
                    found ==> wifs.deep_view().contains(d@),
                    !found ==> forall|m: int| 0 <= m < i ==> wifs.deep_view()[m] != d@,
                decreases wifs@.len() - i,
            {
                proof {
                    assert(wifs.deep_view()[i as int] =~= wifs@[i as int]@);
                }
                if !found && bytes_eq(wifs[i].as_slice(), d.as_slice()) {
                    found = true;
                    proof {
                        assert(wifs.deep_view()[i as int] == d@);
                    }
                }
                i += 1;
            }
            if found {
                String::from_str("📡 ⸱ ")
            } else {
                proof {
                    assert(!wifs.deep_view().contains(d@));
                }
                String::from_str("⇅ ⸱ ")
            }
        },
        None => String::new(),
    }
}

} // verus!
