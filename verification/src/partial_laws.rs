//! What partial application promises when every line is discarded: the
//! old text comes back, each line in its place.
use vstd::prelude::*;

use crate::diff::{is_kept, kinds_of, lemma_pairs_upto_shape, replacement_pairs, DiffHunk, DiffLineKind};
use crate::partial::{
    lemma_paired_addition_in, paired_addition, copy_until, hunk_old_start, hunks_upto, lines_upto, reconstructed, reconstructed_lines, step_line,
    Recon,
};
use crate::text::{first_index, join_lines, lemma_first_index_bounds, split_on};

verus! {

proof fn lemma_step_pos(
    ol: Seq<Seq<char>>,
    hunk: DiffHunk,
    h: int,
    discarded: Set<(usize, usize)>,
    st: Recon,
    j: int,
)
    requires
        0 <= j < hunk.lines@.len(),
    ensures
        step_line(ol, hunk, h, discarded, st, j).pos == st.pos + if hunk.lines@[j].kind == DiffLineKind::Addition {
            0int
        } else {
            1int
        },
{
}

proof fn lemma_lines_pos_mono(
    ol: Seq<Seq<char>>,
    hunk: DiffHunk,
    h: int,
    discarded: Set<(usize, usize)>,
    st: Recon,
    a: int,
    b: int,
)
    requires
        0 <= a <= b <= hunk.lines@.len(),
    ensures
        st.pos <= lines_upto(ol, hunk, h, discarded, st, a).pos <= lines_upto(ol, hunk, h, discarded, st, b).pos,
    decreases b,
{
    if b > 0 {
        if a < b {
            lemma_lines_pos_mono(ol, hunk, h, discarded, st, a, b - 1);
        } else {
            lemma_lines_pos_mono(ol, hunk, h, discarded, st, a - 1, b - 1);
        }
        lemma_step_pos(ol, hunk, h, discarded, lines_upto(ol, hunk, h, discarded, st, b - 1), b - 1);
    }
}

/// With every line of a hunk discarded, each line gives back exactly the
/// old line it covers.
proof fn lemma_discard_lines(
    ol: Seq<Seq<char>>,
    hunk: DiffHunk,
    h: int,
    discarded: Set<(usize, usize)>,
    st0: Recon,
    j: int,
)
    requires
        hunk.lines@.len() <= usize::MAX,
        forall|i: int| 0 <= i < hunk.lines@.len() ==> !#[trigger] is_kept(discarded, h, i),
        st0.out == ol.take(st0.pos),
        0 <= st0.pos <= ol.len(),
        0 <= j <= hunk.lines@.len(),
        lines_upto(ol, hunk, h, discarded, st0, hunk.lines@.len() as int).pos <= ol.len(),
    ensures
        lines_upto(ol, hunk, h, discarded, st0, j).out == ol.take(lines_upto(ol, hunk, h, discarded, st0, j).pos),
        st0.pos <= lines_upto(ol, hunk, h, discarded, st0, j).pos <= ol.len(),
    decreases j,
{
    let n = hunk.lines@.len() as int;
    lemma_lines_pos_mono(ol, hunk, h, discarded, st0, j, n);
    if j > 0 {
        lemma_discard_lines(ol, hunk, h, discarded, st0, j - 1);
        let st = lines_upto(ol, hunk, h, discarded, st0, j - 1);
        lemma_step_pos(ol, hunk, h, discarded, st, j - 1);
        assert(!is_kept(discarded, h, j - 1));
        let ks = kinds_of(hunk.lines@);
        let pairs = replacement_pairs(ks);
        if let Some(a) = paired_addition(pairs, j - 1) {
            lemma_paired_addition_in(pairs, j - 1);
            lemma_pairs_upto_shape(ks, ks.len() as int);
            let k = choose|k: int| 0 <= k < pairs.len() && pairs[k].1 == a;
            assert(pairs[k].1 < ks.len());
            assert(!is_kept(discarded, h, a));
        }
        if hunk.lines@[j - 1].kind != DiffLineKind::Addition {
            assert(st.pos < ol.len());
            assert(ol.take(st.pos + 1) == ol.take(st.pos).push(ol[st.pos]));
        }
    }
}

proof fn lemma_copy_until_keeps(ol: Seq<Seq<char>>, st: Recon, stop: int)
    requires
        st.out == ol.take(st.pos),
        0 <= st.pos <= ol.len(),
    ensures
        copy_until(ol, st, stop).out == ol.take(copy_until(ol, st, stop).pos),
        st.pos <= copy_until(ol, st, stop).pos <= ol.len(),
{
    let end = if stop < ol.len() {
        stop
    } else {
        ol.len() as int
    };
    if st.pos < end {
        assert(ol.take(st.pos) + ol.subrange(st.pos, end) == ol.take(end));
    }
}

proof fn lemma_apply_hunk_pos(
    ol: Seq<Seq<char>>,
    hunks: Seq<DiffHunk>,
    discarded: Set<(usize, usize)>,
    a: int,
    b: int,
)
    requires
        0 <= a <= b <= hunks.len(),
    ensures
        hunks_upto(ol, hunks, discarded, a).pos <= hunks_upto(ol, hunks, discarded, b).pos,
    decreases b,
{
    if a < b {
        lemma_apply_hunk_pos(ol, hunks, discarded, a, b - 1);
        let st = hunks_upto(ol, hunks, discarded, b - 1);
        let hunk = hunks[b - 1];
        let st1 = copy_until(ol, st, hunk_old_start(hunk));
        lemma_lines_pos_mono(ol, hunk, b - 1, discarded, st1, 0, hunk.lines@.len() as int);
    }
}

proof fn lemma_discard_hunks(
    ol: Seq<Seq<char>>,
    hunks: Seq<DiffHunk>,
    discarded: Set<(usize, usize)>,
    k: int,
)
    requires
        0 <= k <= hunks.len(),
        forall|h: int| 0 <= h < hunks.len() ==> (#[trigger] hunks[h]).lines@.len() <= usize::MAX,
        forall|h: int, i: int| 0 <= h < hunks.len() && 0 <= i < hunks[h].lines@.len() ==> !#[trigger] is_kept(discarded, h, i),
        hunks_upto(ol, hunks, discarded, hunks.len() as int).pos <= ol.len(),
    ensures
        hunks_upto(ol, hunks, discarded, k).out == ol.take(hunks_upto(ol, hunks, discarded, k).pos),
        0 <= hunks_upto(ol, hunks, discarded, k).pos <= ol.len(),
    decreases k,
{
    if k == 0 {
        assert(ol.take(0) == Seq::<Seq<char>>::empty());
    } else {
        lemma_discard_hunks(ol, hunks, discarded, k - 1);
        let st = hunks_upto(ol, hunks, discarded, k - 1);
        let hunk = hunks[k - 1];
        lemma_copy_until_keeps(ol, st, hunk_old_start(hunk));
        let st1 = copy_until(ol, st, hunk_old_start(hunk));
        lemma_apply_hunk_pos(ol, hunks, discarded, k, hunks.len() as int);
        assert forall|i: int| 0 <= i < hunk.lines@.len() implies !#[trigger] is_kept(discarded, k - 1, i) by {
            assert(!is_kept(discarded, k - 1, i));
        }
        lemma_discard_lines(ol, hunk, k - 1, discarded, st1, hunk.lines@.len() as int);
    }
}

proof fn lemma_first_index_hit(s: Seq<char>, c: char)
    ensures
        first_index(s, c) < s.len() ==> s[first_index(s, c)] == c,
    decreases s.len(),
{
    if s.len() > 0 && s[0] != c {
        let t = s.drop_first();
        lemma_first_index_hit(t, c);
        lemma_first_index_bounds(t, c);
        let k = first_index(t, c);
        assert(first_index(s, c) == 1 + k);
        if k < t.len() {
            assert(s[1 + k] == t[k]);
        }
    }
}

proof fn lemma_join_cons(a: Seq<char>, ls: Seq<Seq<char>>)
    requires
        ls.len() >= 1,
    ensures
        join_lines(seq![a] + ls) == a + seq!['\n'] + join_lines(ls),
    decreases ls.len(),
{
    let all = seq![a] + ls;
    assert(all.len() >= 2);
    assert(join_lines(all) == join_lines(all.drop_last()) + seq!['\n'] + all.last());
    if ls.len() == 1 {
        assert(all.drop_last() == seq![a]);
        assert(join_lines(seq![a]) == a);
        assert(all.last() == ls[0]);
        assert(join_lines(ls) == ls[0]);
    } else {
        lemma_join_cons(a, ls.drop_last());
        assert(all.drop_last() == seq![a] + ls.drop_last());
        assert(all.last() == ls.last());
        let j0 = join_lines(ls.drop_last());
        assert(join_lines(ls) == j0 + seq!['\n'] + ls.last());
        assert(a + seq!['\n'] + j0 + seq!['\n'] + ls.last() == a + seq!['\n'] + (j0 + seq!['\n'] + ls.last()));
    }
}

/// Joining the lines of a text gives the text back.
proof fn lemma_join_split(s: Seq<char>)
    ensures
        join_lines(split_on(s, '\n')) == s,
    decreases s.len(),
{
    lemma_first_index_bounds(s, '\n');
    lemma_first_index_hit(s, '\n');
    let i = first_index(s, '\n');
    if i < s.len() {
        let rest = s.skip(i + 1);
        lemma_join_split(rest);
        crate::text::lemma_split_len(rest, '\n');
        lemma_join_cons(s.take(i), split_on(rest, '\n'));
        assert(s.take(i) + seq!['\n'] + rest == s);
    }
}

/// Discarding every line restores the old text, each line in its place,
/// for hunks that stay within the old text.
pub proof fn law_discarding_everything_restores_old(old: Seq<char>, hunks: Seq<DiffHunk>, discarded: Set<(usize, usize)>)
    requires
        forall|h: int| 0 <= h < hunks.len() ==> (#[trigger] hunks[h]).lines@.len() <= usize::MAX,
        forall|h: int, i: int| 0 <= h < hunks.len() && 0 <= i < hunks[h].lines@.len() ==> !#[trigger] is_kept(discarded, h, i),
        hunks_upto(split_on(old, '\n'), hunks, discarded, hunks.len() as int).pos <= split_on(old, '\n').len(),
    ensures
        reconstructed(old, hunks, discarded) == old,
{
    let ol = split_on(old, '\n');
    let n = hunks.len() as int;
    lemma_discard_hunks(ol, hunks, discarded, n);
    let st = hunks_upto(ol, hunks, discarded, n);
    lemma_copy_until_keeps(ol, st, ol.len() as int);
    let fin = copy_until(ol, st, ol.len() as int);
    assert(fin.pos == ol.len());
    assert(ol.take(ol.len() as int) == ol);
    assert(reconstructed_lines(old, hunks, discarded) == ol);
    lemma_join_split(old);
}

} // verus!
