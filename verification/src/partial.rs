//! Partial application of a diff: rebuild a file from its old text, its
//! hunks, and the set of lines the user discarded.
use std::collections::HashSet;
use vstd::prelude::*;

use crate::diff::{
    discarded_contains, find_replacement_pairs, is_kept, is_pair_deletion, kinds_of,
    lemma_pairs_upto_shape, replacement_pairs, total_lines, DiffHunk, DiffLineKind,
};
use crate::text::{
    append_line, chars_of, join_lines, lemma_join_push, lemma_split_len, slices_of, split_on,
    split_ranges, string_from_chars, trim_end_char, trimmed_end_len,
};

verus! {

/// State of the reconstruction: lines emitted so far and position in the
/// old lines.
pub struct Recon {
    pub out: Seq<Seq<char>>,
    pub pos: int,
}

/// Old line `p`, or the empty line past the end.
pub open spec fn old_line(old: Seq<Seq<char>>, p: int) -> Seq<char> {
    if 0 <= p < old.len() {
        old[p]
    } else {
        Seq::empty()
    }
}

/// The deletion that addition `a` replaces: the deletion of the last pair
/// whose addition is `a`.
pub open spec fn replaced_deletion(pairs: Seq<(usize, usize)>, a: int) -> Option<int>
    decreases pairs.len(),
{
    if pairs.len() == 0 {
        None
    } else if pairs.last().1 == a {
        Some(pairs.last().0 as int)
    } else {
        replaced_deletion(pairs.drop_last(), a)
    }
}

/// The addition paired with deletion `d`: the addition of the last pair
/// whose deletion is `d`.
pub open spec fn paired_addition(pairs: Seq<(usize, usize)>, d: int) -> Option<int>
    decreases pairs.len(),
{
    if pairs.len() == 0 {
        None
    } else if pairs.last().0 == d {
        Some(pairs.last().1 as int)
    } else {
        paired_addition(pairs.drop_last(), d)
    }
}

pub open spec fn int_opt(o: Option<usize>) -> Option<int> {
    match o {
        Some(d) => Some(d as int),
        None => None,
    }
}

pub open spec fn emit(st: Recon, l: Seq<char>) -> Recon {
    Recon { out: st.out.push(l), pos: st.pos }
}

pub open spec fn advance(st: Recon) -> Recon {
    Recon { out: st.out, pos: st.pos + 1 }
}

/// One line of hunk `h`, by the documented rules, each line giving its
/// output in its own place in the file:
/// - context: the old line is kept;
/// - paired deletion: the pair's addition decides; kept, the new line
///   replaces the old one; discarded, the old line is preserved;
/// - unpaired deletion: the old line is restored only if discarded;
/// - paired addition: nothing more (its pair was written at the deletion);
/// - unpaired addition: the new line only if kept.
pub open spec fn step_line(
    old: Seq<Seq<char>>,
    hunk: DiffHunk,
    h: int,
    discarded: Set<(usize, usize)>,
    st: Recon,
    i: int,
) -> Recon {
    let line = hunk.lines@[i];
    let pairs = replacement_pairs(kinds_of(hunk.lines@));
    let kept = is_kept(discarded, h, i);
    match line.kind {
        DiffLineKind::Context => advance(emit(st, old_line(old, st.pos))),
        DiffLineKind::Deletion => match paired_addition(pairs, i) {
            Some(a) => if is_kept(discarded, h, a) {
                advance(emit(st, trim_end_char(hunk.lines@[a].content@, '\n')))
            } else {
                advance(emit(st, old_line(old, st.pos)))
            },
            None => if kept {
                advance(st)
            } else {
                advance(emit(st, old_line(old, st.pos)))
            },
        },
        DiffLineKind::Addition => if replaced_deletion(pairs, i) is None && kept {
            emit(st, trim_end_char(line.content@, '\n'))
        } else {
            st
        },
    }
}

/// The state after the first `n` lines of hunk `h`.
pub open spec fn lines_upto(
    old: Seq<Seq<char>>,
    hunk: DiffHunk,
    h: int,
    discarded: Set<(usize, usize)>,
    st: Recon,
    n: int,
) -> Recon
    decreases n,
{
    if n <= 0 {
        st
    } else {
        step_line(old, hunk, h, discarded, lines_upto(old, hunk, h, discarded, st, n - 1), n - 1)
    }
}

/// Copy the old lines from the current position up to `stop`.
pub open spec fn copy_until(old: Seq<Seq<char>>, st: Recon, stop: int) -> Recon {
    let end = if stop < old.len() {
        stop
    } else {
        old.len() as int
    };
    if st.pos < end {
        Recon { out: st.out + old.subrange(st.pos, end), pos: end }
    } else {
        st
    }
}

/// Index in the old lines where the hunk starts (its `old_start` is 1-based).
pub open spec fn hunk_old_start(hunk: DiffHunk) -> int {
    if hunk.old_start > 0 {
        hunk.old_start - 1
    } else {
        0
    }
}

pub open spec fn apply_hunk(
    old: Seq<Seq<char>>,
    hunk: DiffHunk,
    h: int,
    discarded: Set<(usize, usize)>,
    st: Recon,
) -> Recon {
    let st1 = copy_until(old, st, hunk_old_start(hunk));
    lines_upto(old, hunk, h, discarded, st1, hunk.lines@.len() as int)
}

pub open spec fn hunks_upto(
    old: Seq<Seq<char>>,
    hunks: Seq<DiffHunk>,
    discarded: Set<(usize, usize)>,
    n: int,
) -> Recon
    decreases n,
{
    if n <= 0 {
        Recon { out: Seq::empty(), pos: 0 }
    } else {
        apply_hunk(old, hunks[n - 1], n - 1, discarded, hunks_upto(old, hunks, discarded, n - 1))
    }
}

/// The lines of the partially applied file.
pub open spec fn reconstructed_lines(
    old: Seq<char>,
    hunks: Seq<DiffHunk>,
    discarded: Set<(usize, usize)>,
) -> Seq<Seq<char>> {
    let ol = split_on(old, '\n');
    copy_until(ol, hunks_upto(ol, hunks, discarded, hunks.len() as int), ol.len() as int).out
}

/// The partially applied file.
pub open spec fn reconstructed(
    old: Seq<char>,
    hunks: Seq<DiffHunk>,
    discarded: Set<(usize, usize)>,
) -> Seq<char> {
    join_lines(reconstructed_lines(old, hunks, discarded))
}

/// Where the deletion replaced by each addition of a hunk is (`None` for a
/// line that is not such an addition).
fn replaced_deletions(pairs: &Vec<(usize, usize)>, n: usize) -> (r: Vec<Option<usize>>)
    requires
        forall|k: int| 0 <= k < pairs@.len() ==> #[trigger] pairs@[k].0 < n && pairs@[k].1 < n,
    ensures
        r@.len() == n,
        forall|i: int|
            0 <= i < n ==> replaced_deletion(pairs@, i) == int_opt(#[trigger] r@[i]),
{
    let mut r: Vec<Option<usize>> = Vec::new();
    let mut i: usize = 0;
    while i < n
        invariant
            0 <= i <= n,
            r@.len() == i,
            forall|j: int| 0 <= j < i ==> r@[j] is None,
        decreases n - i,
    {
        r.push(None);
        i += 1;
    }
    let mut k: usize = 0;
    while k < pairs.len()
        invariant
            0 <= k <= pairs@.len(),
            r@.len() == n,
            forall|q: int| 0 <= q < pairs@.len() ==> #[trigger] pairs@[q].0 < n && pairs@[q].1 < n,
            forall|j: int|
                0 <= j < n ==> replaced_deletion(pairs@.take(k as int), j) == int_opt(#[trigger] r@[j]),
        decreases pairs@.len() - k,
    {
        let (d, a) = pairs[k];
        r.set(a, Some(d));
        proof {
            assert(pairs@.take(k + 1).drop_last() == pairs@.take(k as int));
            assert(pairs@.take(k + 1).last() == pairs@[k as int]);
        }
        k += 1;
    }
    proof {
        assert(pairs@.take(pairs@.len() as int) == pairs@);
    }
    r
}

/// Where the addition paired with each deletion of a hunk is (`None` for a
/// line that is not such a deletion).
fn paired_additions(pairs: &Vec<(usize, usize)>, n: usize) -> (r: Vec<Option<usize>>)
    requires
        forall|k: int| 0 <= k < pairs@.len() ==> #[trigger] pairs@[k].0 < n && pairs@[k].1 < n,
    ensures
        r@.len() == n,
        forall|i: int|
            0 <= i < n ==> paired_addition(pairs@, i) == int_opt(#[trigger] r@[i]),
{
    let mut r: Vec<Option<usize>> = Vec::new();
    let mut i: usize = 0;
    while i < n
        invariant
            0 <= i <= n,
            r@.len() == i,
            forall|j: int| 0 <= j < i ==> r@[j] is None,
        decreases n - i,
    {
        r.push(None);
        i += 1;
    }
    let mut k: usize = 0;
    while k < pairs.len()
        invariant
            0 <= k <= pairs@.len(),
            r@.len() == n,
            forall|q: int| 0 <= q < pairs@.len() ==> #[trigger] pairs@[q].0 < n && pairs@[q].1 < n,
            forall|j: int|
                0 <= j < n ==> paired_addition(pairs@.take(k as int), j) == int_opt(#[trigger] r@[j]),
        decreases pairs@.len() - k,
    {
        let (d, a) = pairs[k];
        r.set(d, Some(a));
        proof {
            assert(pairs@.take(k + 1).drop_last() == pairs@.take(k as int));
            assert(pairs@.take(k + 1).last() == pairs@[k as int]);
        }
        k += 1;
    }
    proof {
        assert(pairs@.take(pairs@.len() as int) == pairs@);
    }
    r
}

/// Exec view of the state: the emitted lines joined, and how many there are.
pub open spec fn out_matches(result: Seq<char>, nlines: usize, st: Recon) -> bool {
    &&& result == join_lines(st.out)
    &&& nlines == st.out.len()
}

/// Appends old line `p` (empty past the end) as a new output line.
fn push_old_line(
    result: &mut Vec<char>,
    nlines: &mut usize,
    chars: &Vec<char>,
    ranges: &Vec<(usize, usize)>,
    p: usize,
    Ghost(ol): Ghost<Seq<Seq<char>>>,
    Ghost(st): Ghost<Recon>,
)
    requires
        ol == slices_of(chars@, ranges@),
        forall|k: int| 0 <= k < ranges@.len() ==> (#[trigger] ranges@[k]).0 <= ranges@[k].1 <= chars@.len(),
        out_matches(old(result)@, *old(nlines), st),
        *old(nlines) < usize::MAX,
    ensures
        out_matches(final(result)@, *final(nlines), emit(st, old_line(ol, p as int))),
{
    let first = *nlines == 0;
    let ghost l = old_line(ol, p as int);
    if p < ranges.len() {
        let (from, to) = ranges[p];
        append_line(result, first, chars, from, to);
    } else {
        append_line(result, first, chars, 0, 0);
        proof {
            assert(chars@.subrange(0, 0) == l);
        }
    }
    proof {
        lemma_join_push(st.out, l);
    }
    *nlines = *nlines + 1;
}

/// Appends `src[..len]` as a new output line.
fn push_chars_line(
    result: &mut Vec<char>,
    nlines: &mut usize,
    src: &Vec<char>,
    len: usize,
    Ghost(st): Ghost<Recon>,
)
    requires
        len <= src@.len(),
        out_matches(old(result)@, *old(nlines), st),
        *old(nlines) < usize::MAX,
    ensures
        out_matches(final(result)@, *final(nlines), emit(st, src@.take(len as int))),
{
    let first = *nlines == 0;
    append_line(result, first, src, 0, len);
    proof {
        assert(src@.subrange(0, len as int) == src@.take(len as int));
        lemma_join_push(st.out, src@.take(len as int));
    }
    *nlines = *nlines + 1;
}

/// Copies old lines while the position is before `stop` and inside the file.
fn copy_old_lines(
    result: &mut Vec<char>,
    nlines: &mut usize,
    pos: &mut usize,
    stop: usize,
    chars: &Vec<char>,
    ranges: &Vec<(usize, usize)>,
    Ghost(ol): Ghost<Seq<Seq<char>>>,
    Ghost(st): Ghost<Recon>,
)
    requires
        ol == slices_of(chars@, ranges@),
        forall|k: int| 0 <= k < ranges@.len() ==> (#[trigger] ranges@[k]).0 <= ranges@[k].1 <= chars@.len(),
        out_matches(old(result)@, *old(nlines), st),
        *old(pos) == st.pos,
        *old(nlines) + ranges@.len() <= usize::MAX + *old(pos),
    ensures
        out_matches(final(result)@, *final(nlines), copy_until(ol, st, stop as int)),
        *final(pos) == copy_until(ol, st, stop as int).pos,
        *final(pos) >= *old(pos),
        *final(pos) > *old(pos) ==> *final(pos) <= ranges@.len(),
        *final(nlines) - *final(pos) == *old(nlines) - *old(pos),
{
    if !(*pos < stop && *pos < ranges.len()) {
        return;
    }
    let ghost end = if (stop as int) < ol.len() { stop as int } else { ol.len() as int };
    let ghost start_nlines = *nlines;
    proof {
        assert(ol.len() == ranges@.len());
        assert(ol.subrange(st.pos, st.pos) == Seq::<Seq<char>>::empty());
        assert(st.out + ol.subrange(st.pos, st.pos) == st.out);
    }
    while *pos < stop && *pos < ranges.len()
        invariant
            ol == slices_of(chars@, ranges@),
            forall|k: int| 0 <= k < ranges@.len() ==> (#[trigger] ranges@[k]).0 <= ranges@[k].1 <= chars@.len(),
            end == if (stop as int) < ol.len() { stop as int } else { ol.len() as int },
            ol.len() == ranges@.len(),
            0 <= st.pos < end,
            st.pos <= *pos <= end,
            *nlines == start_nlines + (*pos - st.pos),
            start_nlines + ranges@.len() <= usize::MAX + st.pos,
            out_matches(
                result@,
                *nlines,
                Recon { out: st.out + ol.subrange(st.pos, *pos as int), pos: *pos as int },
            ),
        decreases ranges@.len() - *pos,
    {
        let ghost cur = Recon { out: st.out + ol.subrange(st.pos, *pos as int), pos: *pos as int };
        push_old_line(result, nlines, chars, ranges, *pos, Ghost(ol), Ghost(cur));
        proof {
            let p = cur.pos;
            assert(0 <= st.pos <= p < ol.len());
            assert(ol.subrange(st.pos, p + 1) =~= ol.subrange(st.pos, p).push(ol[p]));
            assert(st.out + ol.subrange(st.pos, p + 1) =~= cur.out.push(old_line(ol, p)));
        }
        *pos = *pos + 1;
    }
}

/// Reconstruct a file by partially applying a diff.
///
/// Replacement pairs (deletion+addition that represent a line change) are
/// treated atomically: only the addition's discard state matters. If the
/// addition is kept, the new line replaces the old. If discarded, the old
/// line is preserved. The paired deletion has no independent toggle.
///
/// Unpaired lines follow simple rules:
/// - discarded Addition  -> omitted
/// - discarded Deletion  -> restored (original line kept)
/// - kept Addition       -> included
/// - kept Deletion       -> omitted (line stays deleted)
/// - Context             -> always included
pub fn reconstruct_partial(old: &str, hunks: &[DiffHunk], discarded: &HashSet<(usize, usize)>) -> (r: String)
    requires
        old@.len() + total_lines(hunks@, hunks@.len() as int) + 2 <= usize::MAX,
    ensures
        r@ == reconstructed(old@, hunks@, discarded@),
{
    let chars = chars_of(old);
    let ranges = split_ranges(&chars, '\n');
    let ghost ol = split_on(old@, '\n');
    let ghost big_r = ranges@.len() as int;
    let ghost total = total_lines(hunks@, hunks@.len() as int);
    proof {
        lemma_split_len(old@, '\n');
    }
    let mut result: Vec<char> = Vec::new();
    let mut nlines: usize = 0;
    let mut pos: usize = 0;
    let mut h: usize = 0;
    while h < hunks.len()
        invariant
            ol == slices_of(chars@, ranges@),
            ol == split_on(old@, '\n'),
            big_r == ranges@.len(),
            big_r <= old@.len() + 1,
            total == total_lines(hunks@, hunks@.len() as int),
            forall|k: int| 0 <= k < ranges@.len() ==> (#[trigger] ranges@[k]).0 <= ranges@[k].1 <= chars@.len(),
            old@.len() + total + 2 <= usize::MAX,
            0 <= h <= hunks@.len(),
            out_matches(result@, nlines, hunks_upto(ol, hunks@, discarded@, h as int)),
            pos == hunks_upto(ol, hunks@, discarded@, h as int).pos,
            nlines <= (if pos < big_r { pos as int } else { big_r }) + total_lines(hunks@, h as int),
            pos <= big_r + total_lines(hunks@, h as int),
        decreases hunks@.len() - h,
    {
        let hunk = &hunks[h];
        let ghost st0 = hunks_upto(ol, hunks@, discarded@, h as int);
        let ghost th = total_lines(hunks@, h as int);
        proof {
            lemma_total_lines_le(hunks@, h as int + 1, hunks@.len() as int);
            assert(total_lines(hunks@, h as int + 1) == th + hunk.lines@.len());
        }
        let stop = if hunk.old_start > 0 { hunk.old_start - 1 } else { 0 };
        copy_old_lines(&mut result, &mut nlines, &mut pos, stop, &chars, &ranges, Ghost(ol), Ghost(st0));
        let ghost st1 = copy_until(ol, st0, hunk_old_start(*hunk));
        let ghost st2 = st1;

        let n = hunk.lines.len();
        let pairs = find_replacement_pairs(hunk.lines.as_slice());
        proof {
            lemma_pairs_upto_shape(kinds_of(hunk.lines@), n as int);
        }
        let partners = replaced_deletions(&pairs, n);
        let additions = paired_additions(&pairs, n);
        proof {
            assert(lines_upto(ol, *hunk, h as int, discarded@, st2, 0) == st2);
        }
        let mut i: usize = 0;
        while i < n
            invariant
                ol == slices_of(chars@, ranges@),
                big_r == ranges@.len(),
                big_r <= old@.len() + 1,
                forall|q: int| 0 <= q < ranges@.len() ==> (#[trigger] ranges@[q]).0 <= ranges@[q].1 <= chars@.len(),
                old@.len() + total + 2 <= usize::MAX,
                th + n <= total,
                0 <= i <= n,
                h < hunks@.len(),
                n == hunk.lines@.len(),
                *hunk == hunks@[h as int],
                pairs@ == replacement_pairs(kinds_of(hunk.lines@)),
                partners@.len() == n,
                forall|j: int| 0 <= j < n ==> replaced_deletion(pairs@, j) == int_opt(#[trigger] partners@[j]),
                additions@.len() == n,
                forall|j: int| 0 <= j < n ==> paired_addition(pairs@, j) == int_opt(#[trigger] additions@[j]),
                forall|q: int| 0 <= q < pairs@.len() ==> #[trigger] pairs@[q].0 < n && pairs@[q].1 < n,
                out_matches(result@, nlines, lines_upto(ol, *hunk, h as int, discarded@, st2, i as int)),
                pos == lines_upto(ol, *hunk, h as int, discarded@, st2, i as int).pos,
                nlines <= (if pos < big_r { pos as int } else { big_r }) + th + i,
                pos <= big_r + th + i,
            decreases n - i,
        {
            let ghost cur = lines_upto(ol, *hunk, h as int, discarded@, st2, i as int);
            proof {
                assert(lines_upto(ol, *hunk, h as int, discarded@, st2, i + 1) == step_line(
                    ol,
                    *hunk,
                    h as int,
                    discarded@,
                    cur,
                    i as int,
                ));
            }
            let line = &hunk.lines[i];
            let kept = !discarded_contains(discarded, h, i);
            proof {
                assert(kept == is_kept(discarded@, h as int, i as int));
                assert(*line == hunk.lines@[i as int]);
            }
            match line.kind {
                DiffLineKind::Context => {
                    push_old_line(&mut result, &mut nlines, &chars, &ranges, pos, Ghost(ol), Ghost(cur));
                    pos = pos + 1;
                },
                DiffLineKind::Deletion => {
                    match additions[i] {
                        Some(a) => {
                            proof {
                                assert(int_opt(additions@[i as int]) == Some(a as int));
                                assert(paired_addition(pairs@, i as int) == Some(a as int));
                                lemma_paired_addition_in(pairs@, i as int);
                                let k = choose|k: int| 0 <= k < pairs@.len() && pairs@[k].1 == a;
                                assert(pairs@[k].0 < n);
                                assert(pairs@[k].1 < n);
                            }
                            let keep_new = !discarded_contains(discarded, h, a);
                            if keep_new {
                                let content = chars_of(hunk.lines[a].content.as_str());
                                let len = trimmed_end_len(&content, '\n');
                                push_chars_line(&mut result, &mut nlines, &content, len, Ghost(cur));
                            } else {
                                push_old_line(&mut result, &mut nlines, &chars, &ranges, pos, Ghost(ol), Ghost(cur));
                            }
                        },
                        None => {
                            if !kept {
                                push_old_line(&mut result, &mut nlines, &chars, &ranges, pos, Ghost(ol), Ghost(cur));
                            }
                        },
                    }
                    pos = pos + 1;
                },
                DiffLineKind::Addition => {
                    if partners[i].is_none() && kept {
                        let content = chars_of(line.content.as_str());
                        let len = trimmed_end_len(&content, '\n');
                        push_chars_line(&mut result, &mut nlines, &content, len, Ghost(cur));
                    }
                },
            }
            i += 1;
        }
        proof {
            assert(hunks_upto(ol, hunks@, discarded@, h + 1) == lines_upto(ol, *hunk, h as int, discarded@, st2, n as int));
        }
        h += 1;
    }
    let ghost st = hunks_upto(ol, hunks@, discarded@, hunks@.len() as int);
    copy_old_lines(&mut result, &mut nlines, &mut pos, ranges.len(), &chars, &ranges, Ghost(ol), Ghost(st));
    string_from_chars(&result)
}

pub(crate) proof fn lemma_paired_addition_in(pairs: Seq<(usize, usize)>, d: int)
    ensures
        paired_addition(pairs, d) matches Some(a) ==> exists|k: int| 0 <= k < pairs.len() && pairs[k].1 == a,
    decreases pairs.len(),
{
    if pairs.len() > 0 && pairs.last().0 != d {
        lemma_paired_addition_in(pairs.drop_last(), d);
        if let Some(a) = paired_addition(pairs, d) {
            let k = choose|k: int| 0 <= k < pairs.drop_last().len() && pairs.drop_last()[k].1 == a;
            assert(pairs[k].1 == a);
        }
    } else if pairs.len() > 0 {
        assert(pairs[pairs.len() - 1].1 == pairs.last().1);
    }
}

proof fn lemma_total_lines_le(hunks: Seq<DiffHunk>, a: int, b: int)
    requires
        0 <= a <= b,
    ensures
        total_lines(hunks, a) <= total_lines(hunks, b),
    decreases b - a,
{
    if a < b {
        lemma_total_lines_le(hunks, a, b - 1);
    }
}

} // verus!
