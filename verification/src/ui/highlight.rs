//! Syntax highlighting: which style a tree-sitter capture gets, and how
//! overlapping captures become one list of styled byte ranges.
//!
//! A style is a color (the highlighter sets nothing else), identified here
//! by its packed `0xRRGGBB` value, so that two styles are equal exactly
//! when their ids are.
use std::collections::BTreeSet;
use std::ops::Range;
use vstd::prelude::*;
use vstd::std_specs::btree::{increasing_seq, spec_btree_keys_iter};
use vstd::std_specs::cmp::OrdSpec;
use vstd::std_specs::iter::IteratorSpec;

use crate::text::str_eq;
use crate::text::chars_of;
use crate::ui::hex_color::{hex_rgb, pairs_fit, parse_hex_rgb};

verus! {

/// The id of the color (r, g, b).
pub open spec fn rgb_id(rgb: (u8, u8, u8)) -> u32 {
    (rgb.0 as int * 65536 + rgb.1 as int * 256 + rgb.2 as int) as u32
}

fn pack_rgb(rgb: (u8, u8, u8)) -> (r: u32)
    ensures
        r == rgb_id(rgb),
{
    (rgb.0 as u32) * 65536 + (rgb.1 as u32) * 256 + (rgb.2 as u32)
}

/// The syntax theme's entries with a valid color, in order, each with its
/// color's id.
pub open spec fn theme_entries(raw: Seq<(String, String)>) -> Seq<(Seq<char>, u32)>
    decreases raw.len(),
{
    if raw.len() == 0 {
        Seq::empty()
    } else {
        let rest = theme_entries(raw.drop_last());
        match hex_rgb(raw.last().1@) {
            Some(c) => rest.push((raw.last().0@, rgb_id(c))),
            None => rest,
        }
    }
}

/// The theme's view: names with style ids.
pub open spec fn theme_view(theme: Seq<(String, u32)>) -> Seq<(Seq<char>, u32)> {
    theme.map_values(|e: (String, u32)| (e.0@, e.1))
}

/// Builds the syntax theme from (capture name, hex color) pairs; entries
/// whose color does not parse are dropped.
pub fn syntax_theme(raw: Vec<(String, String)>) -> (r: Vec<(String, u32)>)
    requires
        forall|k: int| 0 <= k < raw@.len() ==> pairs_fit((#[trigger] raw@[k]).1@, 3),
    ensures
        theme_view(r@) == theme_entries(raw@),
{
    let ghost orig = raw@;
    let n = raw.len();
    let mut rest = raw;
    let mut out: Vec<(String, u32)> = Vec::new();
    let mut i: usize = 0;
    proof {
        assert(orig.skip(0) == orig);
        assert(orig.take(0) == Seq::<(String, String)>::empty());
        assert(theme_view(out@) == Seq::<(Seq<char>, u32)>::empty());
    }
    while i < n
        invariant
            n == orig.len(),
            i <= n,
            rest@ == orig.skip(i as int),
            theme_view(out@) == theme_entries(orig.take(i as int)),
            forall|k: int| 0 <= k < orig.len() ==> pairs_fit((#[trigger] orig[k]).1@, 3),
        decreases n - i,
    {
        let (name, hex) = rest.remove(0);
        proof {
            assert(orig[i as int] == (name, hex));
            assert(orig.take(i + 1).drop_last() == orig.take(i as int));
            assert(orig.take(i + 1).last() == (name, hex));
        }
        match parse_hex_rgb(hex.as_str()) {
            Some(c) => {
                let id = pack_rgb(c);
                let ghost before = out@;
                out.push((name, id));
                proof {
                    assert(theme_view(out@) == theme_view(before).push((name@, id)));
                }
            },
            None => {},
        }
        i += 1;
    }
    proof {
        assert(orig.take(n as int) == orig);
    }
    out
}

/// The style of the first entry named `name`.
pub open spec fn theme_lookup(theme: Seq<(Seq<char>, u32)>, name: Seq<char>) -> Option<u32>
    decreases theme.len(),
{
    if theme.len() == 0 {
        None
    } else if theme[0].0 == name {
        Some(theme[0].1)
    } else {
        theme_lookup(theme.drop_first(), name)
    }
}

/// Index of the last `.` in `s`, or -1.
pub open spec fn last_dot(s: Seq<char>) -> int
    decreases s.len(),
{
    if s.len() == 0 {
        -1
    } else if s.last() == '.' {
        s.len() - 1
    } else {
        last_dot(s.drop_last())
    }
}

pub proof fn lemma_last_dot(s: Seq<char>)
    ensures
        -1 <= last_dot(s) < s.len(),
        last_dot(s) >= 0 ==> s[last_dot(s)] == '.',
        forall|i: int| last_dot(s) < i < s.len() ==> s[i] != '.',
    decreases s.len(),
{
    if s.len() > 0 && s.last() != '.' {
        lemma_last_dot(s.drop_last());
        assert forall|i: int| last_dot(s) < i < s.len() implies s[i] != '.' by {
            if i < s.len() - 1 {
                assert(s[i] == s.drop_last()[i]);
            }
        }
    }
}

/// The style of a capture: its own name's, or else that of the nearest
/// ancestor in the dotted hierarchy (`keyword.function`, then `keyword`).
pub open spec fn capture_style(theme: Seq<(Seq<char>, u32)>, name: Seq<char>) -> Option<u32>
    decreases name.len(),
{
    match theme_lookup(theme, name) {
        Some(s) => Some(s),
        None => {
            let d = last_dot(name);
            if d < 0 {
                None
            } else {
                proof {
                    lemma_last_dot(name);
                }
                capture_style(theme, name.take(d))
            }
        },
    }
}

/// Looks up `key` in the theme.
fn lookup(theme: &Vec<(String, u32)>, key: &Vec<char>) -> (r: Option<u32>)
    ensures
        r == theme_lookup(theme_view(theme@), key@),
{
    let ghost tv = theme_view(theme@);
    let mut i: usize = 0;
    proof {
        assert(tv.skip(0) == tv);
    }
    while i < theme.len()
        invariant
            i <= theme@.len(),
            tv == theme_view(theme@),
            theme_lookup(tv.skip(i as int), key@) == theme_lookup(tv, key@),
        decreases theme@.len() - i,
    {
        let name = chars_of(theme[i].0.as_str());
        let mut same = name.len() == key.len();
        let mut j: usize = 0;
        while same && j < name.len()
            invariant
                j <= name@.len(),
                same ==> name@.len() == key@.len(),
                same == (name@.len() == key@.len() && forall|m: int| 0 <= m < j ==> name@[m] == key@[m]),
            decreases name@.len() - j,
        {
            if name[j] != key[j] {
                same = false;
            }
            j += 1;
        }
        proof {
            assert(tv.skip(i as int)[0] == tv[i as int]);
            if same {
                assert(name@ == key@);
            }
        }
        if same {
            return Some(theme[i].1);
        }
        proof {
            assert(tv.skip(i as int).drop_first() == tv.skip(i + 1));
        }
        i += 1;
    }
    None
}

/// The style for a capture name, walking up the dotted hierarchy.
pub fn style_for_capture(name: &str, theme: &Vec<(String, u32)>) -> (r: Option<u32>)
    ensures
        r == capture_style(theme_view(theme@), name@),
{
    let ghost tv = theme_view(theme@);
    let mut key = chars_of(name);
    loop
        invariant
            capture_style(tv, key@) == capture_style(tv, name@),
            tv == theme_view(theme@),
        decreases key@.len(),
    {
        match lookup(theme, &key) {
            Some(s) => return Some(s),
            None => {},
        }
        let mut d = key.len();
        proof {
            assert(key@.take(d as int) == key@);
        }
        while d > 0 && key[d - 1] != '.'
            invariant
                d <= key@.len(),
                last_dot(key@) == last_dot(key@.take(d as int)),
            decreases d,
        {
            proof {
                assert(key@.take(d as int).drop_last() == key@.take(d - 1));
            }
            d -= 1;
        }
        proof {
            lemma_last_dot(key@);
        }
        if d == 0 {
            proof {
                assert(key@.take(0) == Seq::<char>::empty());
            }
            return None;
        }
        proof {
            assert(key@.take(d as int).drop_last() == key@.take(d - 1));
            assert(key@.take(d as int).last() == '.');
        }
        key.truncate(d - 1);
    }
}

/// `r` covers byte `p`.
pub open spec fn covers(r: (Range<usize>, u32), p: int) -> bool {
    r.0.start <= p && p < r.0.end
}

/// The style of byte `p`: that of the last range covering it.
pub open spec fn style_at(styles: Seq<(Range<usize>, u32)>, p: int) -> Option<u32>
    decreases styles.len(),
{
    if styles.len() == 0 {
        None
    } else if covers(styles.last(), p) {
        Some(styles.last().1)
    } else {
        style_at(styles.drop_last(), p)
    }
}

/// Some run of `runs` covers byte `p`.
pub open spec fn covered(runs: Seq<(Range<usize>, u32)>, p: int) -> bool {
    exists|q: int| 0 <= q < runs.len() && #[trigger] covers(runs[q], p)
}

/// `runs` are nonempty, in order and disjoint, and give each byte the
/// style `styles` gives it.
pub open spec fn runs_agree(styles: Seq<(Range<usize>, u32)>, runs: Seq<(Range<usize>, u32)>) -> bool {
    &&& forall|q: int| 0 <= q < runs.len() ==> (#[trigger] runs[q]).0.start < runs[q].0.end
    &&& forall|q1: int, q2: int| 0 <= q1 < q2 < runs.len() ==> (#[trigger] runs[q1]).0.end <= (#[trigger] runs[q2]).0.start
    &&& forall|q: int, p: int| 0 <= q < runs.len() && #[trigger] covers(runs[q], p) ==> style_at(styles, p) == Some(runs[q].1)
}

/// The result of merging: the maximal runs of equal style. Runs agree
/// with `styles`, every styled byte is covered, and two runs that touch
/// differ in style.
pub open spec fn merged_runs(styles: Seq<(Range<usize>, u32)>, runs: Seq<(Range<usize>, u32)>) -> bool {
    &&& runs_agree(styles, runs)
    &&& forall|p: int| #[trigger] style_at(styles, p) is Some ==> covered(runs, p)
    &&& forall|q: int| 0 <= q < runs.len() - 1 && (#[trigger] runs[q]).0.end == runs[q + 1].0.start ==> runs[q].1 != runs[q + 1].1
}

/// `r` spans all of `[a, b)`.
pub open spec fn spans(r: (Range<usize>, u32), a: int, b: int) -> bool {
    r.0.start <= a && b <= r.0.end
}

/// The style of the last range spanning `[a, b)`.
pub open spec fn style_spanning(styles: Seq<(Range<usize>, u32)>, a: int, b: int) -> Option<u32>
    decreases styles.len(),
{
    if styles.len() == 0 {
        None
    } else if spans(styles.last(), a, b) {
        Some(styles.last().1)
    } else {
        style_spanning(styles.drop_last(), a, b)
    }
}

/// `x` is an end of the total range or of some styled range.
pub open spec fn is_boundary(styles: Seq<(Range<usize>, u32)>, total: Range<usize>, x: int) -> bool {
    x == total.start || x == total.end || exists|k: int|
        0 <= k < styles.len() && (#[trigger] styles[k].0.start == x || styles[k].0.end == x)
}

/// No range starts or ends strictly inside `[a, b)`.
pub open spec fn no_cut(styles: Seq<(Range<usize>, u32)>, a: int, b: int) -> bool {
    forall|k: int| 0 <= k < styles.len() ==> {
        &&& ((#[trigger] styles[k]).0.start <= a || styles[k].0.start >= b)
        &&& (styles[k].0.end <= a || styles[k].0.end >= b)
    }
}

proof fn lemma_spanning_is_style_at(styles: Seq<(Range<usize>, u32)>, a: int, b: int, p: int)
    requires
        a <= p < b,
        no_cut(styles, a, b),
    ensures
        style_spanning(styles, a, b) == style_at(styles, p),
    decreases styles.len(),
{
    if styles.len() > 0 {
        let l = styles.last();
        assert(l == styles[styles.len() - 1]);
        let t = styles.drop_last();
        assert forall|k: int| 0 <= k < t.len() implies {
            &&& ((#[trigger] t[k]).0.start <= a || t[k].0.start >= b)
            &&& (t[k].0.end <= a || t[k].0.end >= b)
        } by {
            assert(t[k] == styles[k]);
        }
        lemma_spanning_is_style_at(t, a, b, p);
    }
}

proof fn lemma_styled_is_covered(styles: Seq<(Range<usize>, u32)>, p: int) -> (k: int)
    requires
        style_at(styles, p) is Some,
    ensures
        0 <= k < styles.len(),
        covers(styles[k], p),
    decreases styles.len(),
{
    if covers(styles.last(), p) {
        styles.len() - 1
    } else {
        let k = lemma_styled_is_covered(styles.drop_last(), p);
        assert(styles.drop_last()[k] == styles[k]);
        k
    }
}

fn spanning_style(styles: &Vec<(Range<usize>, u32)>, a: usize, b: usize) -> (r: Option<u32>)
    ensures
        r == style_spanning(styles@, a as int, b as int),
{
    let mut top: Option<u32> = None;
    let mut k: usize = 0;
    while k < styles.len()
        invariant
            k <= styles@.len(),
            top == style_spanning(styles@.take(k as int), a as int, b as int),
        decreases styles@.len() - k,
    {
        proof {
            assert(styles@.take(k + 1).drop_last() == styles@.take(k as int));
            assert(styles@.take(k + 1).last() == styles@[k as int]);
        }
        if styles[k].0.start <= a && b <= styles[k].0.end {
            top = Some(styles[k].1);
        }
        k += 1;
    }
    proof {
        assert(styles@.take(styles@.len() as int) == styles@);
    }
    top
}

proof fn lemma_increasing_keys(r: Seq<&usize>)
    requires
        increasing_seq(r),
    ensures
        forall|i: int, j: int| 0 <= i < j < r.len() ==> *r[i] < *r[j],
{
    assert(vstd::laws_cmp::obeys_cmp::<usize>());
    assert(vstd::laws_cmp::obeys_cmp::<&usize>());
    assert forall|i: int, j: int| 0 <= i < j < r.len() implies *r[i] < *r[j] by {
        assert(OrdSpec::cmp_spec(&r[i], &r[j]) is Less);
    }
}

/// The elements of `b` in increasing order.
fn sorted_points(b: &BTreeSet<usize>) -> (v: Vec<usize>)
    ensures
        forall|i: int, j: int| 0 <= i < j < v@.len() ==> v@[i] < v@[j],
        forall|x: usize| b@.contains(x) <==> v@.contains(x),
{
    let mut v: Vec<usize> = Vec::new();
    let ghost keys = spec_btree_keys_iter(b).remaining().unref();
    for x in it: b.iter()
        invariant
            keys == spec_btree_keys_iter(b).remaining().unref(),
            it.seq().unref() == keys,
            v@ == keys.take(it.index() as int),
    {
        v.push(*x);
        proof {
            assert(keys.take(it.index() + 1) == keys.take(it.index() as int).push(*x));
        }
    }
    proof {
        assert(keys.take(keys.len() as int) == keys);
        lemma_increasing_keys(spec_btree_keys_iter(b).remaining());
    }
    v
}

proof fn lemma_boundary_step(styles: Seq<(Range<usize>, u32)>, total: Range<usize>, k: int, x: int)
    requires
        0 <= k < styles.len(),
    ensures
        is_boundary(styles.take(k + 1), total, x) <==> (is_boundary(styles.take(k), total, x)
            || styles[k].0.start == x || styles[k].0.end == x),
{
    let t = styles.take(k + 1);
    let u = styles.take(k);
    if is_boundary(t, total, x) && !(x == total.start || x == total.end) {
        let j = choose|j: int| 0 <= j < t.len() && (#[trigger] t[j].0.start == x || t[j].0.end == x);
        if j < k {
            assert(u[j] == t[j]);
        }
    }
    if is_boundary(u, total, x) && !(x == total.start || x == total.end) {
        let j = choose|j: int| 0 <= j < u.len() && (#[trigger] u[j].0.start == x || u[j].0.end == x);
        assert(t[j] == u[j]);
    }
    if styles[k].0.start == x || styles[k].0.end == x {
        assert(t[k] == styles[k]);
    }
}

/// Merges overlapping highlight ranges: later (more specific) captures win
/// where they overlap, and touching pieces of one style become one range.
pub fn merge_styles(total_range: &Range<usize>, styles: Vec<(Range<usize>, u32)>) -> (r: Vec<(Range<usize>, u32)>)
    ensures
        merged_runs(styles@, r@),
{
    let ghost total = *total_range;
    let mut boundaries: BTreeSet<usize> = BTreeSet::new();
    boundaries.insert(total_range.start);
    boundaries.insert(total_range.end);
    let mut k: usize = 0;
    proof {
        assert(styles@.take(0) == Seq::<(Range<usize>, u32)>::empty());
    }
    while k < styles.len()
        invariant
            k <= styles@.len(),
            total == *total_range,
            forall|x: usize| boundaries@.contains(x) <==> is_boundary(styles@.take(k as int), total, x as int),
        decreases styles@.len() - k,
    {
        boundaries.insert(styles[k].0.start);
        boundaries.insert(styles[k].0.end);
        proof {
            assert forall|x: usize| boundaries@.contains(x) <==> is_boundary(styles@.take(k + 1), total, x as int) by {
                lemma_boundary_step(styles@, total, k as int, x as int);
            }
        }
        k += 1;
    }
    proof {
        assert(styles@.take(styles@.len() as int) == styles@);
    }
    let pts = sorted_points(&boundaries);
    proof {
        assert(boundaries@.contains(total.start));
        assert(pts@.contains(total.start));
    }
    let count = pts.len() - 1;
    let mut result: Vec<(Range<usize>, u32)> = Vec::new();
    let mut i: usize = 0;
    while i < count
        invariant
            count + 1 == pts@.len(),
            i <= count,
            forall|a: int, b: int| 0 <= a < b < pts@.len() ==> pts@[a] < pts@[b],
            forall|x: usize| is_boundary(styles@, total, x as int) <==> pts@.contains(x),
            runs_agree(styles@, result@),
            forall|p: int| pts@[0] <= p < pts@[i as int] && #[trigger] style_at(styles@, p) is Some ==> covered(result@, p),
            forall|q: int| 0 <= q < result@.len() ==> (#[trigger] result@[q]).0.end <= pts@[i as int],
        decreases count - i,
    {
        let a = pts[i];
        let b = pts[i + 1];
        proof {
            assert forall|j: int| 0 <= j < styles@.len() implies {
                &&& ((#[trigger] styles@[j]).0.start <= a || styles@[j].0.start >= b)
                &&& (styles@[j].0.end <= a || styles@[j].0.end >= b)
            } by {
                let x = styles@[j].0.start;
                let y = styles@[j].0.end;
                assert(is_boundary(styles@, total, x as int));
                assert(is_boundary(styles@, total, y as int));
                assert(pts@.contains(x));
                assert(pts@.contains(y));
                let jx = choose|m: int| 0 <= m < pts@.len() && pts@[m] == x;
                let jy = choose|m: int| 0 <= m < pts@.len() && pts@[m] == y;
                if jx > i {
                    assert(pts@[i + 1] <= pts@[jx]);
                }
                if jy > i {
                    assert(pts@[i + 1] <= pts@[jy]);
                }
            }
            assert(no_cut(styles@, a as int, b as int));
        }
        let top = spanning_style(&styles, a, b);
        let ghost before = result@;
        match top {
            Some(st) => {
                result.push((a..b, st));
                proof {
                    assert forall|q: int, p: int| 0 <= q < result@.len() && #[trigger] covers(result@[q], p) implies style_at(styles@, p) == Some(result@[q].1) by {
                        if q < before.len() {
                            assert(result@[q] == before[q]);
                        } else {
                            lemma_spanning_is_style_at(styles@, a as int, b as int, p);
                        }
                    }
                    assert forall|q1: int, q2: int| 0 <= q1 < q2 < result@.len() implies (#[trigger] result@[q1]).0.end <= (#[trigger] result@[q2]).0.start by {
                        assert(result@[q1] == before[q1]);
                    }
                    assert forall|p: int| pts@[0] <= p < pts@[i + 1] && #[trigger] style_at(styles@, p) is Some implies covered(result@, p) by {
                        if p < a {
                            let q = choose|q: int| 0 <= q < before.len() && #[trigger] covers(before[q], p);
                            assert(result@[q] == before[q]);
                            assert(covers(result@[q], p));
                        } else {
                            assert(covers(result@[before.len() as int], p));
                        }
                    }
                }
            },
            None => {
                proof {
                    assert forall|p: int| pts@[0] <= p < pts@[i + 1] && #[trigger] style_at(styles@, p) is Some implies covered(result@, p) by {
                        if p >= a {
                            lemma_spanning_is_style_at(styles@, a as int, b as int, p);
                        }
                    }
                }
            },
        }
        i += 1;
    }
    proof {
        assert forall|p: int| #[trigger] style_at(styles@, p) is Some implies covered(result@, p) by {
            let k = lemma_styled_is_covered(styles@, p);
            let x = styles@[k].0.start;
            let y = styles@[k].0.end;
            assert(is_boundary(styles@, total, x as int));
            assert(is_boundary(styles@, total, y as int));
            assert(pts@.contains(x));
            assert(pts@.contains(y));
            let jx = choose|m: int| 0 <= m < pts@.len() && pts@[m] == x;
            let jy = choose|m: int| 0 <= m < pts@.len() && pts@[m] == y;
            if jx > 0 {
                assert(pts@[0] < pts@[jx]);
            }
            if jy < count {
                assert(pts@[jy] < pts@[count as int]);
            }
        }
    }
    merge_touching(&styles, result)
}

/// Joins touching runs of equal style.
fn merge_touching(styles: &Vec<(Range<usize>, u32)>, result: Vec<(Range<usize>, u32)>) -> (r: Vec<(Range<usize>, u32)>)
    requires
        runs_agree(styles@, result@),
        forall|p: int| #[trigger] style_at(styles@, p) is Some ==> covered(result@, p),
    ensures
        merged_runs(styles@, r@),
{
    let mut merged: Vec<(Range<usize>, u32)> = Vec::new();
    let mut j: usize = 0;
    while j < result.len()
        invariant
            j <= result@.len(),
            runs_agree(styles@, result@),
            runs_agree(styles@, merged@),
            forall|q: int, p: int| 0 <= q < j && #[trigger] covers(result@[q], p) ==> covered(merged@, p),
            forall|q: int| 0 <= q < merged@.len() - 1 && (#[trigger] merged@[q]).0.end == merged@[q + 1].0.start ==> merged@[q].1 != merged@[q + 1].1,
            j > 0 ==> merged@.len() > 0 && merged@.last().0.end == result@[j - 1].0.end,
            j == 0 ==> merged@.len() == 0,
        decreases result@.len() - j,
    {
        let rs = result[j].0.start;
        let re = result[j].0.end;
        let st = result[j].1;
        let ghost before = merged@;
        let n = merged.len();
        if n > 0 && merged[n - 1].0.end == rs && merged[n - 1].1 == st {
            let ls = merged[n - 1].0.start;
            merged.set(n - 1, (ls..re, st));
            proof {
                let l = n - 1;
                assert forall|q: int| 0 <= q < merged@.len() implies (#[trigger] merged@[q]).0.start < merged@[q].0.end by {
                    if q < l {
                        assert(merged@[q] == before[q]);
                    }
                }
                assert forall|q1: int, q2: int| 0 <= q1 < q2 < merged@.len() implies (#[trigger] merged@[q1]).0.end <= (#[trigger] merged@[q2]).0.start by {
                    assert(merged@[q1] == before[q1]);
                    if q2 < l {
                        assert(merged@[q2] == before[q2]);
                    }
                }
                assert forall|q: int, p: int| 0 <= q < merged@.len() && #[trigger] covers(merged@[q], p) implies style_at(styles@, p) == Some(merged@[q].1) by {
                    if q < l {
                        assert(merged@[q] == before[q]);
                    } else if p < rs {
                        assert(covers(before[l as int], p));
                    } else {
                        assert(covers(result@[j as int], p));
                    }
                }
                assert forall|q: int, p: int| 0 <= q < j + 1 && #[trigger] covers(result@[q], p) implies covered(merged@, p) by {
                    if q < j {
                        let w = choose|w: int| 0 <= w < before.len() && #[trigger] covers(before[w], p);
                        if w < l {
                            assert(merged@[w] == before[w]);
                        }
                        assert(covers(merged@[w], p));
                    } else {
                        assert(covers(merged@[l as int], p));
                    }
                }
                assert forall|q: int| 0 <= q < merged@.len() - 1 && (#[trigger] merged@[q]).0.end == merged@[q + 1].0.start implies merged@[q].1 != merged@[q + 1].1 by {
                    assert(merged@[q] == before[q]);
                    if q + 1 < l {
                        assert(merged@[q + 1] == before[q + 1]);
                    }
                }
            }
        } else {
            merged.push((rs..re, st));
            proof {
                let l = n as int;
                if j > 0 {
                    assert(result@[j - 1].0.end <= result@[j as int].0.start);
                }
                assert forall|q: int| 0 <= q < merged@.len() implies (#[trigger] merged@[q]).0.start < merged@[q].0.end by {
                    if q < l {
                        assert(merged@[q] == before[q]);
                    }
                }
                assert forall|q1: int, q2: int| 0 <= q1 < q2 < merged@.len() implies (#[trigger] merged@[q1]).0.end <= (#[trigger] merged@[q2]).0.start by {
                    assert(merged@[q1] == before[q1]);
                    if q2 < l {
                        assert(merged@[q2] == before[q2]);
                    } else if q1 < l - 1 {
                        assert(before[q1].0.end <= before[l - 1].0.start);
                    }
                }
                assert forall|q: int, p: int| 0 <= q < merged@.len() && #[trigger] covers(merged@[q], p) implies style_at(styles@, p) == Some(merged@[q].1) by {
                    if q < l {
                        assert(merged@[q] == before[q]);
                    } else {
                        assert(covers(result@[j as int], p));
                    }
                }
                assert forall|q: int, p: int| 0 <= q < j + 1 && #[trigger] covers(result@[q], p) implies covered(merged@, p) by {
                    if q < j {
                        let w = choose|w: int| 0 <= w < before.len() && #[trigger] covers(before[w], p);
                        assert(merged@[w] == before[w]);
                        assert(covers(merged@[w], p));
                    } else {
                        assert(covers(merged@[l], p));
                    }
                }
                assert forall|q: int| 0 <= q < merged@.len() - 1 && (#[trigger] merged@[q]).0.end == merged@[q + 1].0.start implies merged@[q].1 != merged@[q + 1].1 by {
                    assert(merged@[q] == before[q]);
                    if q + 1 < l {
                        assert(merged@[q + 1] == before[q + 1]);
                    }
                }
            }
        }
        j += 1;
    }
    proof {
        assert forall|p: int| #[trigger] style_at(styles@, p) is Some implies covered(merged@, p) by {
            let q = choose|q: int| 0 <= q < result@.len() && #[trigger] covers(result@[q], p);
        }
    }
    merged
}

/// `runs` agree with `styles`, start at or after `lo`, cover every styled
/// byte from `lo` on, and leave no two touching runs of one style.
pub open spec fn runs_from(styles: Seq<(Range<usize>, u32)>, runs: Seq<(Range<usize>, u32)>, lo: int) -> bool {
    &&& runs_agree(styles, runs)
    &&& forall|q: int| 0 <= q < runs.len() ==> lo <= (#[trigger] runs[q]).0.start
    &&& forall|p: int| lo <= p && #[trigger] style_at(styles, p) is Some ==> covered(runs, p)
    &&& forall|q: int| 0 <= q < runs.len() - 1 && (#[trigger] runs[q]).0.end == runs[q + 1].0.start ==> runs[q].1 != runs[q + 1].1
}

proof fn lemma_tail_runs(styles: Seq<(Range<usize>, u32)>, r: Seq<(Range<usize>, u32)>, lo: int)
    requires
        runs_from(styles, r, lo),
        r.len() > 0,
    ensures
        runs_from(styles, r.drop_first(), r[0].0.end as int),
{
    let t = r.drop_first();
    let e = r[0].0.end as int;
    assert forall|q: int| 0 <= q < t.len() implies (#[trigger] t[q]).0.start < t[q].0.end by {
        assert(t[q] == r[q + 1]);
    }
    assert forall|q1: int, q2: int| 0 <= q1 < q2 < t.len() implies (#[trigger] t[q1]).0.end <= (#[trigger] t[q2]).0.start by {
        assert(t[q1] == r[q1 + 1] && t[q2] == r[q2 + 1]);
    }
    assert forall|q: int, p: int| 0 <= q < t.len() && #[trigger] covers(t[q], p) implies style_at(styles, p) == Some(t[q].1) by {
        assert(t[q] == r[q + 1]);
    }
    assert forall|q: int| 0 <= q < t.len() implies e <= (#[trigger] t[q]).0.start by {
        assert(t[q] == r[q + 1]);
        assert(r[0].0.end <= r[q + 1].0.start);
    }
    assert forall|p: int| e <= p && #[trigger] style_at(styles, p) is Some implies covered(t, p) by {
        let q = choose|q: int| 0 <= q < r.len() && #[trigger] covers(r[q], p);
        assert(q != 0);
        assert(t[q - 1] == r[q]);
        assert(covers(t[q - 1], p));
    }
    assert forall|q: int| 0 <= q < t.len() - 1 && (#[trigger] t[q]).0.end == t[q + 1].0.start implies t[q].1 != t[q + 1].1 by {
        assert(t[q] == r[q + 1] && t[q + 1] == r[q + 2]);
    }
}

proof fn lemma_first_run_start(styles: Seq<(Range<usize>, u32)>, r1: Seq<(Range<usize>, u32)>, r2: Seq<(Range<usize>, u32)>, lo: int)
    requires
        runs_from(styles, r1, lo),
        runs_from(styles, r2, lo),
        r1.len() > 0,
        r2.len() > 0,
    ensures
        r2[0].0.start <= r1[0].0.start,
{
    let a = r1[0].0.start as int;
    assert(covers(r1[0], a));
    assert(style_at(styles, a) is Some);
    let q = choose|q: int| 0 <= q < r2.len() && #[trigger] covers(r2[q], a);
    if q > 0 {
        assert(r2[0].0.end <= r2[q].0.start);
    }
}

proof fn lemma_first_run_end(styles: Seq<(Range<usize>, u32)>, r1: Seq<(Range<usize>, u32)>, r2: Seq<(Range<usize>, u32)>, lo: int)
    requires
        runs_from(styles, r1, lo),
        runs_from(styles, r2, lo),
        r1.len() > 0,
        r2.len() > 0,
        r1[0].0.start == r2[0].0.start,
        r1[0].1 == r2[0].1,
    ensures
        r2[0].0.end <= r1[0].0.end,
{
    let e = r1[0].0.end as int;
    if e < r2[0].0.end {
        assert(covers(r2[0], e));
        assert(style_at(styles, e) == Some(r2[0].1));
        let q = choose|q: int| 0 <= q < r1.len() && #[trigger] covers(r1[q], e);
        assert(q != 0);
        if q > 1 {
            assert(r1[1].0.end <= r1[q].0.start);
            assert(r1[0].0.end <= r1[1].0.start);
        }
        assert(r1[1].0.start == e);
        assert(style_at(styles, e) == Some(r1[1].1));
    }
}

proof fn lemma_runs_unique(styles: Seq<(Range<usize>, u32)>, r1: Seq<(Range<usize>, u32)>, r2: Seq<(Range<usize>, u32)>, lo: int)
    requires
        runs_from(styles, r1, lo),
        runs_from(styles, r2, lo),
    ensures
        r1 == r2,
    decreases r1.len() + r2.len(),
{
    if r1.len() == 0 && r2.len() > 0 {
        let a = r2[0].0.start as int;
        assert(covers(r2[0], a));
        assert(style_at(styles, a) is Some);
    } else if r2.len() == 0 && r1.len() > 0 {
        let a = r1[0].0.start as int;
        assert(covers(r1[0], a));
        assert(style_at(styles, a) is Some);
    } else if r1.len() > 0 {
        lemma_first_run_start(styles, r1, r2, lo);
        lemma_first_run_start(styles, r2, r1, lo);
        let a = r1[0].0.start as int;
        assert(covers(r1[0], a) && covers(r2[0], a));
        lemma_first_run_end(styles, r1, r2, lo);
        lemma_first_run_end(styles, r2, r1, lo);
        assert(r1[0] == r2[0]);
        lemma_tail_runs(styles, r1, lo);
        lemma_tail_runs(styles, r2, lo);
        lemma_runs_unique(styles, r1.drop_first(), r2.drop_first(), r1[0].0.end as int);
        assert(r1 =~= r2) by {
            assert forall|i: int| 0 <= i < r1.len() implies r1[i] == r2[i] by {
                if i > 0 {
                    assert(r1[i] == r1.drop_first()[i - 1]);
                    assert(r2[i] == r2.drop_first()[i - 1]);
                }
            }
        }
    }
}

/// Merging has one answer: two run lists that both agree with the styles,
/// cover every styled byte, and never leave two touching runs of one
/// style are the same list. So the result depends on the styles alone,
/// and the total range passed to [`merge_styles`] never changes it.
pub proof fn law_merged_runs_unique(styles: Seq<(Range<usize>, u32)>, r1: Seq<(Range<usize>, u32)>, r2: Seq<(Range<usize>, u32)>)
    requires
        merged_runs(styles, r1),
        merged_runs(styles, r2),
    ensures
        r1 == r2,
{
    lemma_runs_unique(styles, r1, r2, 0);
}

/// The captures that get a style, in match order, with their style; empty
/// ranges are dropped.
pub open spec fn styled_captures(captures: Seq<(Range<usize>, String)>, theme: Seq<(Seq<char>, u32)>) -> Seq<(Range<usize>, u32)>
    decreases captures.len(),
{
    if captures.len() == 0 {
        Seq::empty()
    } else {
        let rest = styled_captures(captures.drop_last(), theme);
        let c = captures.last();
        match capture_style(theme, c.1@) {
            Some(st) => if c.0.start < c.0.end {
                rest.push((c.0, st))
            } else {
                rest
            },
            None => rest,
        }
    }
}

/// The styled ranges of a text, from the byte range and capture name of
/// each capture the highlight query matched, in match order.
pub fn highlight_ranges(text_len: usize, captures: &Vec<(Range<usize>, String)>, theme: &Vec<(String, u32)>) -> (r: Vec<(Range<usize>, u32)>)
    ensures
        merged_runs(styled_captures(captures@, theme_view(theme@)), r@),
{
    let ghost tv = theme_view(theme@);
    let mut raw: Vec<(Range<usize>, u32)> = Vec::new();
    let mut i: usize = 0;
    proof {
        assert(captures@.take(0) == Seq::<(Range<usize>, String)>::empty());
    }
    while i < captures.len()
        invariant
            i <= captures@.len(),
            tv == theme_view(theme@),
            raw@ == styled_captures(captures@.take(i as int), tv),
        decreases captures@.len() - i,
    {
        proof {
            assert(captures@.take(i + 1).drop_last() == captures@.take(i as int));
            assert(captures@.take(i + 1).last() == captures@[i as int]);
        }
        match style_for_capture(captures[i].1.as_str(), theme) {
            Some(st) => {
                let start = captures[i].0.start;
                let end = captures[i].0.end;
                if start < end {
                    raw.push((start..end, st));
                }
            },
            None => {},
        }
        i += 1;
    }
    proof {
        assert(captures@.take(captures@.len() as int) == captures@);
    }
    if raw.len() == 0 {
        return raw;
    }
    merge_styles(&(0..text_len), raw)
}

} // verus!
