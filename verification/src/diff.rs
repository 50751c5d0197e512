//! Line diffs between a sandbox file and its host copy: the hunk model,
//! replacement pairs, and the change counts that partial staging reports.
use std::collections::HashSet;
use vstd::prelude::*;

verus! {

/// What a line of a hunk does.
#[derive(Clone, Copy, PartialEq, Eq, Structural, Debug)]
pub enum DiffLineKind {
    Context,
    Addition,
    Deletion,
}

#[derive(Clone)]
pub struct DiffLine {
    pub kind: DiffLineKind,
    pub old_lineno: Option<usize>,
    pub new_lineno: Option<usize>,
    pub content: String,
}

#[derive(Clone)]
pub struct DiffHunk {
    pub old_start: usize,
    pub old_count: usize,
    pub new_start: usize,
    pub new_count: usize,
    pub lines: Vec<DiffLine>,
}

#[derive(Clone)]
pub struct FileDiff {
    pub additions: usize,
    pub deletions: usize,
    pub hunks: Vec<DiffHunk>,
    pub is_binary: bool,
}

impl FileDiff {
    /// A text diff without a single added or deleted line.
    pub fn is_empty(&self) -> (r: bool)
        ensures
            r == (!self.is_binary && self.additions == 0 && self.deletions == 0),
    {
        !self.is_binary && self.additions == 0 && self.deletions == 0
    }
}

#[derive(Clone)]
pub struct DiffStats {
    pub additions: usize,
    pub deletions: usize,
}

impl Default for DiffStats {
    fn default() -> (r: Self)
        ensures
            r.additions == 0,
            r.deletions == 0,
    {
        DiffStats { additions: 0, deletions: 0 }
    }
}

// ---------------------------------------------------------------------------
// Runs of deletions and additions
// ---------------------------------------------------------------------------

/// The kinds of a hunk's lines, in order.
pub open spec fn kinds_of(lines: Seq<DiffLine>) -> Seq<DiffLineKind> {
    lines.map_values(|l: DiffLine| l.kind)
}

/// End (exclusive) of the run of `k` lines that continues from index `i`.
pub open spec fn run_end(ks: Seq<DiffLineKind>, i: int, k: DiffLineKind) -> int
    decreases ks.len() - i,
{
    if 0 <= i < ks.len() && ks[i] == k {
        run_end(ks, i + 1, k)
    } else {
        i
    }
}

/// Start of the run of `k` lines that ends just before index `i`.
pub open spec fn run_start(ks: Seq<DiffLineKind>, i: int, k: DiffLineKind) -> int
    decreases i,
{
    if 0 < i <= ks.len() && ks[i - 1] == k {
        run_start(ks, i - 1, k)
    } else {
        i
    }
}

/// Line `d` is a deletion whose block of deletions is directly followed by
/// a block of additions at least as long as `d`'s offset in its block.
pub open spec fn is_paired_del(ks: Seq<DiffLineKind>, d: int) -> bool {
    let s = run_start(ks, d, DiffLineKind::Deletion);
    let e = run_end(ks, d, DiffLineKind::Deletion);
    &&& 0 <= d < ks.len()
    &&& ks[d] == DiffLineKind::Deletion
    &&& e < ks.len()
    &&& ks[e] == DiffLineKind::Addition
    &&& d - s < run_end(ks, e, DiffLineKind::Addition) - e
}

/// The addition that replaces the paired deletion `d`: the one at the same
/// offset in the following block of additions.
pub open spec fn partner(ks: Seq<DiffLineKind>, d: int) -> int {
    run_end(ks, d, DiffLineKind::Deletion) + (d - run_start(ks, d, DiffLineKind::Deletion))
}

/// Replacement pairs `(deletion, addition)` among the first `n` lines, by
/// increasing deletion index.
pub open spec fn pairs_upto(ks: Seq<DiffLineKind>, n: int) -> Seq<(usize, usize)>
    decreases n,
{
    if n <= 0 {
        Seq::empty()
    } else if is_paired_del(ks, n - 1) {
        pairs_upto(ks, n - 1).push(((n - 1) as usize, partner(ks, n - 1) as usize))
    } else {
        pairs_upto(ks, n - 1)
    }
}

/// All replacement pairs of a hunk whose line kinds are `ks`.
pub open spec fn replacement_pairs(ks: Seq<DiffLineKind>) -> Seq<(usize, usize)> {
    pairs_upto(ks, ks.len() as int)
}

pub(crate) proof fn lemma_run_end_block(ks: Seq<DiffLineKind>, i: int, e: int, k: DiffLineKind)
    requires
        0 <= i <= e <= ks.len(),
        forall|j: int| i <= j < e ==> ks[j] == k,
        e == ks.len() || ks[e] != k,
    ensures
        run_end(ks, i, k) == e,
    decreases e - i,
{
    if i < e {
        lemma_run_end_block(ks, i + 1, e, k);
    }
}

pub(crate) proof fn lemma_run_start_block(ks: Seq<DiffLineKind>, s: int, i: int, k: DiffLineKind)
    requires
        0 <= s <= i <= ks.len(),
        forall|j: int| s <= j < i ==> ks[j] == k,
        s == 0 || ks[s - 1] != k,
    ensures
        run_start(ks, i, k) == s,
    decreases i - s,
{
    if s < i {
        lemma_run_start_block(ks, s, i - 1, k);
    }
}

proof fn lemma_pairs_upto_skip(ks: Seq<DiffLineKind>, a: int, b: int)
    requires
        0 <= a <= b,
        forall|d: int| a <= d < b ==> !is_paired_del(ks, d),
    ensures
        pairs_upto(ks, b) == pairs_upto(ks, a),
    decreases b - a,
{
    if a < b {
        lemma_pairs_upto_skip(ks, a, b - 1);
    }
}

/// Every pair lies inside the hunk, deletion before addition, and the
/// deletions are strictly increasing.
pub proof fn lemma_pairs_upto_shape(ks: Seq<DiffLineKind>, n: int)
    requires
        0 <= n <= ks.len(),
        ks.len() <= usize::MAX,
    ensures
        forall|k: int|
            0 <= k < pairs_upto(ks, n).len() ==> {
                let p = #[trigger] pairs_upto(ks, n)[k];
                &&& p.0 < n
                &&& p.0 < p.1 < ks.len()
                &&& is_paired_del(ks, p.0 as int)
                &&& p.1 == partner(ks, p.0 as int)
            },
        forall|k1: int, k2: int|
            0 <= k1 < k2 < pairs_upto(ks, n).len() ==> pairs_upto(ks, n)[k1].0
                < pairs_upto(ks, n)[k2].0,
    decreases n,
{
    if n > 0 {
        lemma_pairs_upto_shape(ks, n - 1);
        if is_paired_del(ks, n - 1) {
            lemma_partner_bounds(ks, n - 1);
            let prev = pairs_upto(ks, n - 1);
            let cur = pairs_upto(ks, n);
            assert(cur == prev.push(((n - 1) as usize, partner(ks, n - 1) as usize)));
            assert forall|k: int| 0 <= k < cur.len() implies {
                let p = #[trigger] cur[k];
                &&& p.0 < n
                &&& p.0 < p.1 < ks.len()
                &&& is_paired_del(ks, p.0 as int)
                &&& p.1 == partner(ks, p.0 as int)
            } by {
                if k < prev.len() {
                    assert(cur[k] == prev[k]);
                }
            }
            assert forall|k1: int, k2: int| 0 <= k1 < k2 < cur.len() implies cur[k1].0 < cur[k2].0 by {
                assert(cur[k1] == prev[k1]);
                if k2 < prev.len() {
                    assert(cur[k2] == prev[k2]);
                }
            }
        } else {
            assert(pairs_upto(ks, n) == pairs_upto(ks, n - 1));
        }
    }
}

pub(crate) proof fn lemma_run_end_bounds(ks: Seq<DiffLineKind>, i: int, k: DiffLineKind)
    requires
        0 <= i <= ks.len(),
    ensures
        i <= run_end(ks, i, k) <= ks.len(),
        forall|j: int| i <= j < run_end(ks, i, k) ==> ks[j] == k,
        run_end(ks, i, k) == ks.len() || ks[run_end(ks, i, k)] != k,
    decreases ks.len() - i,
{
    if i < ks.len() && ks[i] == k {
        lemma_run_end_bounds(ks, i + 1, k);
    }
}

pub(crate) proof fn lemma_run_start_bounds(ks: Seq<DiffLineKind>, i: int, k: DiffLineKind)
    requires
        0 <= i <= ks.len(),
    ensures
        0 <= run_start(ks, i, k) <= i,
        forall|j: int| run_start(ks, i, k) <= j < i ==> ks[j] == k,
        run_start(ks, i, k) == 0 || ks[run_start(ks, i, k) - 1] != k,
    decreases i,
{
    if 0 < i && ks[i - 1] == k {
        lemma_run_start_bounds(ks, i - 1, k);
    }
}

pub(crate) proof fn lemma_partner_bounds(ks: Seq<DiffLineKind>, d: int)
    requires
        is_paired_del(ks, d),
    ensures
        d < partner(ks, d) < ks.len(),
        ks[partner(ks, d)] == DiffLineKind::Addition,
{
    let s = run_start(ks, d, DiffLineKind::Deletion);
    let e = run_end(ks, d, DiffLineKind::Deletion);
    lemma_run_start_bounds(ks, d, DiffLineKind::Deletion);
    lemma_run_end_bounds(ks, d, DiffLineKind::Deletion);
    lemma_run_end_bounds(ks, e, DiffLineKind::Addition);
}

/// Within a hunk, find replacement pairs: consecutive deletion lines
/// immediately followed by consecutive addition lines form a replacement
/// block. Returns `(del_line_idx, add_line_idx)` pairs, matched 1:1.
/// Excess deletions or additions beyond the shorter side are unpaired.
pub fn find_replacement_pairs(lines: &[DiffLine]) -> (pairs: Vec<(usize, usize)>)
    ensures
        pairs@ == replacement_pairs(kinds_of(lines@)),
{
    let ghost ks = kinds_of(lines@);
    let n = lines.len();
    let mut pairs: Vec<(usize, usize)> = Vec::new();
    let mut i: usize = 0;

    while i < n
        invariant
            n == lines@.len(),
            ks == kinds_of(lines@),
            0 <= i <= n,
            pairs@ == pairs_upto(ks, i as int),
            i < n && ks[i as int] == DiffLineKind::Deletion ==> run_start(
                ks,
                i as int,
                DiffLineKind::Deletion,
            ) == i,
        decreases n - i,
    {
        if lines[i].kind != DiffLineKind::Deletion {
            proof {
                assert(!is_paired_del(ks, i as int));
            }
            i += 1;
            proof {
                if i < n && ks[i as int] == DiffLineKind::Deletion {
                    assert(ks[i - 1] != DiffLineKind::Deletion);
                }
            }
            continue;
        }
        let del_start = i;
        proof {
            reveal_with_fuel(run_start, 2);
        }
        while i < n && lines[i].kind == DiffLineKind::Deletion
            invariant
                n == lines@.len(),
                ks == kinds_of(lines@),
                del_start <= i <= n,
                forall|j: int| del_start <= j < i ==> ks[j] == DiffLineKind::Deletion,
            decreases n - i,
        {
            i += 1;
        }
        let del_end = i;
        let del_count = i - del_start;
        proof {
            lemma_run_start_bounds(ks, del_start as int, DiffLineKind::Deletion);
            assert forall|d: int| del_start <= d < del_end implies run_start(
                ks,
                d,
                DiffLineKind::Deletion,
            ) == del_start && run_end(ks, d, DiffLineKind::Deletion) == del_end by {
                lemma_run_start_block(ks, del_start as int, d, DiffLineKind::Deletion);
                lemma_run_end_block(ks, d, del_end as int, DiffLineKind::Deletion);
            }
        }

        if i >= n || lines[i].kind != DiffLineKind::Addition {
            proof {
                lemma_pairs_upto_skip(ks, del_start as int, i as int);
            }
            continue;
        }

        let add_start = i;
        while i < n && lines[i].kind == DiffLineKind::Addition
            invariant
                n == lines@.len(),
                ks == kinds_of(lines@),
                add_start <= i <= n,
                forall|j: int| add_start <= j < i ==> ks[j] == DiffLineKind::Addition,
            decreases n - i,
        {
            i += 1;
        }
        let add_count = i - add_start;
        proof {
            lemma_run_end_block(ks, add_start as int, i as int, DiffLineKind::Addition);
        }

        let pair_count = if del_count < add_count {
            del_count
        } else {
            add_count
        };
        let mut j: usize = 0;
        while j < pair_count
            invariant
                n == lines@.len(),
                ks == kinds_of(lines@),
                0 <= j <= pair_count,
                pair_count <= del_count,
                pair_count <= add_count,
                del_end == add_start,
                del_count == del_end - del_start,
                add_count == i - add_start,
                i <= n,
                run_end(ks, add_start as int, DiffLineKind::Addition) == i,
                ks[add_start as int] == DiffLineKind::Addition,
                forall|d: int| del_start <= d < del_end ==> ks[d] == DiffLineKind::Deletion,
                forall|d: int|
                    del_start <= d < del_end ==> run_start(ks, d, DiffLineKind::Deletion)
                        == del_start && run_end(ks, d, DiffLineKind::Deletion) == del_end,
                pairs@ == pairs_upto(ks, del_start + j),
            decreases pair_count - j,
        {
            proof {
                let d = del_start + j;
                assert(is_paired_del(ks, d as int));
                assert(partner(ks, d as int) == add_start + j);
            }
            pairs.push((del_start + j, add_start + j));
            j += 1;
        }
        proof {
            assert forall|d: int| del_start + pair_count <= d < i implies !is_paired_del(
                ks,
                d,
            ) by {
                if d < del_end {
                    assert(d - del_start >= pair_count);
                } else {
                    assert(ks[d] == DiffLineKind::Addition);
                }
            }
            lemma_pairs_upto_skip(ks, del_start + pair_count, i as int);
            if i < n && ks[i as int] == DiffLineKind::Deletion {
                assert(ks[i - 1] == DiffLineKind::Addition);
            }
        }
    }
    pairs
}

// ---------------------------------------------------------------------------
// Effective stats under partial staging
// ---------------------------------------------------------------------------

/// Some pair of `pairs` has `i` as its deletion.
pub open spec fn is_pair_deletion(pairs: Seq<(usize, usize)>, i: int) -> bool {
    exists|k: int| 0 <= k < pairs.len() && pairs[k].0 == i
}

/// Some pair of `pairs` has `i` as its addition.
pub open spec fn is_pair_addition(pairs: Seq<(usize, usize)>, i: int) -> bool {
    exists|k: int| 0 <= k < pairs.len() && pairs[k].1 == i
}

/// Line `i` of hunk `h` is not among the discarded `(hunk, line)` positions.
pub open spec fn is_kept(discarded: Set<(usize, usize)>, h: int, i: int) -> bool {
    !discarded.contains((h as usize, i as usize))
}

/// Number of `i` in `0..n` for which `p` holds.
pub open spec fn count_upto(n: int, p: spec_fn(int) -> bool) -> nat
    decreases n,
{
    if n <= 0 {
        0
    } else {
        count_upto(n - 1, p) + if p(n - 1) {
            1nat
        } else {
            0nat
        }
    }
}

/// Line `i` of hunk `h` counts as an addition: a kept addition.
pub open spec fn counts_as_addition(hunk: DiffHunk, h: int, discarded: Set<(usize, usize)>, i: int) -> bool {
    hunk.lines@[i].kind == DiffLineKind::Addition && is_kept(discarded, h, i)
}

/// Line `i` of hunk `h` counts as a deletion: a kept addition that replaces
/// a deletion, or a kept deletion that no addition replaces.
pub open spec fn counts_as_deletion(hunk: DiffHunk, h: int, discarded: Set<(usize, usize)>, i: int) -> bool {
    let pairs = replacement_pairs(kinds_of(hunk.lines@));
    ||| hunk.lines@[i].kind == DiffLineKind::Addition && is_kept(discarded, h, i)
        && is_pair_addition(pairs, i)
    ||| hunk.lines@[i].kind == DiffLineKind::Deletion && is_kept(discarded, h, i)
        && !is_pair_deletion(pairs, i)
}

pub open spec fn hunk_additions(hunk: DiffHunk, h: int, discarded: Set<(usize, usize)>) -> nat {
    count_upto(hunk.lines@.len() as int, |i: int| counts_as_addition(hunk, h, discarded, i))
}

pub open spec fn hunk_deletions(hunk: DiffHunk, h: int, discarded: Set<(usize, usize)>) -> nat {
    count_upto(hunk.lines@.len() as int, |i: int| counts_as_deletion(hunk, h, discarded, i))
}

/// Effective additions of the first `n` hunks.
pub open spec fn effective_additions(hunks: Seq<DiffHunk>, discarded: Set<(usize, usize)>, n: int) -> nat
    decreases n,
{
    if n <= 0 {
        0
    } else {
        effective_additions(hunks, discarded, n - 1) + hunk_additions(hunks[n - 1], n - 1, discarded)
    }
}

/// Effective deletions of the first `n` hunks.
pub open spec fn effective_deletions(hunks: Seq<DiffHunk>, discarded: Set<(usize, usize)>, n: int) -> nat
    decreases n,
{
    if n <= 0 {
        0
    } else {
        effective_deletions(hunks, discarded, n - 1) + hunk_deletions(hunks[n - 1], n - 1, discarded)
    }
}

/// Number of lines in the first `n` hunks.
pub open spec fn total_lines(hunks: Seq<DiffHunk>, n: int) -> nat
    decreases n,
{
    if n <= 0 {
        0
    } else {
        total_lines(hunks, n - 1) + hunks[n - 1].lines@.len()
    }
}

/// Membership of `(hunk, line)` in the discarded set.
///
/// Calls `HashSet::contains` from std; trusted to answer membership in the
/// set's contents (std's documented behaviour for `(usize, usize)` keys).
#[verifier::external_body]
pub(crate) fn discarded_contains(discarded: &HashSet<(usize, usize)>, hunk: usize, line: usize) -> (r: bool)
    ensures
        r == discarded@.contains((hunk, line)),
{
    discarded.contains(&(hunk, line))
}

/// Flags for the lines of a hunk: which are the deletion, and which the
/// addition, of some replacement pair.
pub(crate) fn pair_flags(pairs: &Vec<(usize, usize)>, n: usize) -> (r: (Vec<bool>, Vec<bool>))
    requires
        forall|k: int| 0 <= k < pairs@.len() ==> #[trigger] pairs@[k].0 < n && pairs@[k].1 < n,
    ensures
        r.0@.len() == n,
        r.1@.len() == n,
        forall|i: int| 0 <= i < n ==> r.0@[i] == is_pair_deletion(pairs@, i),
        forall|i: int| 0 <= i < n ==> r.1@[i] == is_pair_addition(pairs@, i),
{
    let mut dels: Vec<bool> = Vec::new();
    let mut adds: Vec<bool> = Vec::new();
    let mut i: usize = 0;
    while i < n
        invariant
            0 <= i <= n,
            dels@.len() == i,
            adds@.len() == i,
            forall|j: int| 0 <= j < i ==> !dels@[j] && !adds@[j],
        decreases n - i,
    {
        dels.push(false);
        adds.push(false);
        i += 1;
    }
    let mut k: usize = 0;
    while k < pairs.len()
        invariant
            0 <= k <= pairs@.len(),
            dels@.len() == n,
            adds@.len() == n,
            forall|q: int| 0 <= q < pairs@.len() ==> #[trigger] pairs@[q].0 < n && pairs@[q].1 < n,
            forall|j: int|
                0 <= j < n ==> dels@[j] == exists|q: int| 0 <= q < k && pairs@[q].0 == j,
            forall|j: int|
                0 <= j < n ==> adds@[j] == exists|q: int| 0 <= q < k && pairs@[q].1 == j,
        decreases pairs@.len() - k,
    {
        let (d, a) = pairs[k];
        dels.set(d, true);
        adds.set(a, true);
        proof {
            assert forall|j: int| 0 <= j < n implies dels@[j] == exists|q: int|
                0 <= q < k + 1 && pairs@[q].0 == j by {
                if dels@[j] && j != d {
                    let q = choose|q: int| 0 <= q < k && pairs@[q].0 == j;
                    assert(0 <= q < k + 1 && pairs@[q].0 == j);
                }
                if j == d {
                    assert(pairs@[k as int].0 == j);
                }
            }
            assert forall|j: int| 0 <= j < n implies adds@[j] == exists|q: int|
                0 <= q < k + 1 && pairs@[q].1 == j by {
                if adds@[j] && j != a {
                    let q = choose|q: int| 0 <= q < k && pairs@[q].1 == j;
                    assert(0 <= q < k + 1 && pairs@[q].1 == j);
                }
                if j == a {
                    assert(pairs@[k as int].1 == j);
                }
            }
        }
        k += 1;
    }
    (dels, adds)
}

/// Compute effective stats given partial staging. Discarded lines don't
/// count. For replacement pairs, both the addition and deletion only
/// count when the addition is kept.
pub fn effective_stats(hunks: &[DiffHunk], discarded: &HashSet<(usize, usize)>) -> (r: DiffStats)
    requires
        total_lines(hunks@, hunks@.len() as int) <= usize::MAX,
    ensures
        r.additions == effective_additions(hunks@, discarded@, hunks@.len() as int),
        r.deletions == effective_deletions(hunks@, discarded@, hunks@.len() as int),
{
    let mut additions: usize = 0;
    let mut deletions: usize = 0;
    let mut h: usize = 0;
    while h < hunks.len()
        invariant
            0 <= h <= hunks@.len(),
            total_lines(hunks@, hunks@.len() as int) <= usize::MAX,
            additions == effective_additions(hunks@, discarded@, h as int),
            deletions == effective_deletions(hunks@, discarded@, h as int),
            additions <= total_lines(hunks@, h as int),
            deletions <= total_lines(hunks@, h as int),
        decreases hunks@.len() - h,
    {
        let hunk = &hunks[h];
        let pairs = find_replacement_pairs(hunk.lines.as_slice());
        let n = hunk.lines.len();
        let ghost ks = kinds_of(hunk.lines@);
        proof {
            lemma_pairs_upto_shape(ks, n as int);
            lemma_total_lines_mono(hunks@, h as int + 1, hunks@.len() as int);
        }
        let (paired_del, paired_add) = pair_flags(&pairs, n);
        let ghost pa = |i: int| counts_as_addition(*hunk, h as int, discarded@, i);
        let ghost pd = |i: int| counts_as_deletion(*hunk, h as int, discarded@, i);
        let mut adds: usize = 0;
        let mut dels: usize = 0;
        let mut i: usize = 0;
        while i < n
            invariant
                0 <= i <= n,
                h < hunks@.len(),
                n == hunk.lines@.len(),
                *hunk == hunks@[h as int],
                pa == (|j: int| counts_as_addition(*hunk, h as int, discarded@, j)),
                pd == (|j: int| counts_as_deletion(*hunk, h as int, discarded@, j)),
                pairs@ == replacement_pairs(kinds_of(hunk.lines@)),
                paired_del@.len() == n,
                paired_add@.len() == n,
                forall|j: int| 0 <= j < n ==> paired_del@[j] == is_pair_deletion(pairs@, j),
                forall|j: int| 0 <= j < n ==> paired_add@[j] == is_pair_addition(pairs@, j),
                adds == count_upto(i as int, pa),
                dels == count_upto(i as int, pd),
                adds <= i,
                dels <= i,
            decreases n - i,
        {
            let line = &hunk.lines[i];
            proof {
                assert(pa(i as int) == counts_as_addition(*hunk, h as int, discarded@, i as int));
                assert(pd(i as int) == counts_as_deletion(*hunk, h as int, discarded@, i as int));
                assert(count_upto(i + 1, pa) == count_upto(i as int, pa) + if pa(i as int) { 1nat } else { 0nat });
                assert(count_upto(i + 1, pd) == count_upto(i as int, pd) + if pd(i as int) { 1nat } else { 0nat });
            }
            match line.kind {
                DiffLineKind::Context => {},
                DiffLineKind::Addition => {
                    if !discarded_contains(discarded, h, i) {
                        adds += 1;
                        if paired_add[i] {
                            dels += 1;
                        }
                    }
                },
                DiffLineKind::Deletion => {
                    if !paired_del[i] && !discarded_contains(discarded, h, i) {
                        dels += 1;
                    }
                },
            }
            i += 1;
        }
        proof {
            assert(hunk_additions(hunks@[h as int], h as int, discarded@) == adds);
            assert(hunk_deletions(hunks@[h as int], h as int, discarded@) == dels);
        }
        additions += adds;
        deletions += dels;
        h += 1;
    }
    DiffStats { additions, deletions }
}

proof fn lemma_total_lines_mono(hunks: Seq<DiffHunk>, a: int, b: int)
    requires
        0 <= a <= b,
    ensures
        total_lines(hunks, a) <= total_lines(hunks, b),
    decreases b - a,
{
    if a < b {
        lemma_total_lines_mono(hunks, a, b - 1);
    }
}

// ---------------------------------------------------------------------------
// Law: with nothing discarded, the effective stats are the raw line counts
// ---------------------------------------------------------------------------

/// Number of lines of kind `k` in a hunk.
pub open spec fn kind_count(hunk: DiffHunk, k: DiffLineKind) -> nat {
    count_upto(hunk.lines@.len() as int, |i: int| hunk.lines@[i].kind == k)
}

/// Lines of kind `k` in the first `n` hunks.
pub open spec fn hunks_kind_count(hunks: Seq<DiffHunk>, k: DiffLineKind, n: int) -> nat
    decreases n,
{
    if n <= 0 {
        0
    } else {
        hunks_kind_count(hunks, k, n - 1) + kind_count(hunks[n - 1], k)
    }
}

proof fn lemma_count_upto_ext(n: int, p: spec_fn(int) -> bool, q: spec_fn(int) -> bool)
    requires
        forall|i: int| 0 <= i < n ==> #[trigger] p(i) == q(i),
    ensures
        count_upto(n, p) == count_upto(n, q),
    decreases n,
{
    if n > 0 {
        lemma_count_upto_ext(n - 1, p, q);
    }
}

proof fn lemma_count_upto_or(n: int, p: spec_fn(int) -> bool, q: spec_fn(int) -> bool, r: spec_fn(int) -> bool)
    requires
        forall|i: int| 0 <= i < n ==> (#[trigger] r(i) == (p(i) || q(i))) && !(p(i) && q(i)),
    ensures
        count_upto(n, r) == count_upto(n, p) + count_upto(n, q),
    decreases n,
{
    if n > 0 {
        lemma_count_upto_or(n - 1, p, q, r);
    }
}

proof fn lemma_count_upto_and_not(n: int, p: spec_fn(int) -> bool, q: spec_fn(int) -> bool, pq: spec_fn(int) -> bool, pnq: spec_fn(int) -> bool)
    requires
        forall|i: int| 0 <= i < n ==> #[trigger] pq(i) == (p(i) && q(i)) && pnq(i) == (p(i) && !q(i)),
    ensures
        count_upto(n, p) == count_upto(n, pq) + count_upto(n, pnq),
    decreases n,
{
    if n > 0 {
        lemma_count_upto_and_not(n - 1, p, q, pq, pnq);
    }
}

/// Counting the members of a strictly increasing sequence of indices.
proof fn lemma_count_members(n: int, ps: Seq<int>, p: spec_fn(int) -> bool)
    requires
        0 <= n,
        forall|k: int| 0 <= k < ps.len() ==> 0 <= #[trigger] ps[k] < n,
        forall|k1: int, k2: int| 0 <= k1 < k2 < ps.len() ==> ps[k1] < ps[k2],
        forall|i: int| 0 <= i < n ==> #[trigger] p(i) == (exists|k: int| 0 <= k < ps.len() && ps[k] == i),
    ensures
        count_upto(n, p) == ps.len(),
    decreases n,
{
    if n > 0 {
        if ps.len() > 0 && ps.last() == n - 1 {
            let q = |i: int| exists|k: int| 0 <= k < ps.drop_last().len() && ps.drop_last()[k] == i;
            assert forall|i: int| 0 <= i < n - 1 implies #[trigger] p(i) == q(i) by {
                if p(i) {
                    let k = choose|k: int| 0 <= k < ps.len() && ps[k] == i;
                    if k == ps.len() - 1 {
                        assert(false);
                    }
                    assert(ps.drop_last()[k] == i);
                }
            }
            lemma_count_upto_ext(n - 1, p, q);
            assert forall|k: int| 0 <= k < ps.drop_last().len() implies 0 <= #[trigger] ps.drop_last()[k] < n - 1 by {
                assert(ps[k] < ps[ps.len() - 1]);
            }
            lemma_count_members(n - 1, ps.drop_last(), q);
            assert(count_upto(n, p) == count_upto(n - 1, p) + 1);
            assert(p(n - 1)) by {
                assert(ps[ps.len() - 1] == n - 1);
            }
        } else {
            assert forall|k: int| 0 <= k < ps.len() implies #[trigger] ps[k] < n - 1 by {
                if ps[k] == n - 1 {
                    if k < ps.len() - 1 {
                        assert(ps[k] < ps[ps.len() - 1]);
                    }
                }
            }
            assert(!p(n - 1));
            lemma_count_members(n - 1, ps, p);
            assert(count_upto(n, p) == count_upto(n - 1, p));
        }
    } else {
        if ps.len() > 0 {
            assert(0 <= ps[0] < n);
        }
    }
}

/// Additions that replace deletions come in the same order as the deletions.
pub(crate) proof fn lemma_partner_increasing(ks: Seq<DiffLineKind>, d1: int, d2: int)
    requires
        is_paired_del(ks, d1),
        is_paired_del(ks, d2),
        d1 < d2,
    ensures
        partner(ks, d1) < partner(ks, d2),
{
    let del = DiffLineKind::Deletion;
    let add = DiffLineKind::Addition;
    let s1 = run_start(ks, d1, del);
    let s2 = run_start(ks, d2, del);
    let e1 = run_end(ks, d1, del);
    let e2 = run_end(ks, d2, del);
    lemma_run_start_bounds(ks, d1, del);
    lemma_run_start_bounds(ks, d2, del);
    lemma_run_end_bounds(ks, d1, del);
    lemma_run_end_bounds(ks, d2, del);
    let f1 = run_end(ks, e1, add);
    lemma_run_end_bounds(ks, e1, add);
    if s2 <= d1 {
        // same block of deletions
        assert forall|j: int| s2 <= j < d1 implies ks[j] == del by {}
        lemma_run_start_block(ks, s2, d1, del);
        assert forall|j: int| d1 <= j < e2 implies ks[j] == del by {}
        lemma_run_end_block(ks, d1, e2, del);
    } else {
        // d2's block starts after d1's block and its additions
        assert(e1 <= d2) by {
            if d2 < e1 {
                assert forall|j: int| s1 <= j < d2 implies ks[j] == del by {}
                assert forall|j: int| d1 <= j < d2 implies ks[j] == del by {}
                assert(ks[s2 - 1] == del);
            }
        }
        assert(f1 <= s2) by {
            if s2 < f1 {
                if s2 >= e1 {
                    assert(ks[s2] == add);
                    assert(ks[s2] == del);
                } else {
                    assert(ks[e1] == del);
                }
            }
        }
    }
}

proof fn lemma_pair_components_increasing(ks: Seq<DiffLineKind>)
    requires
        ks.len() <= usize::MAX,
    ensures
        forall|k1: int, k2: int|
            0 <= k1 < k2 < replacement_pairs(ks).len() ==> replacement_pairs(ks)[k1].1
                < replacement_pairs(ks)[k2].1,
{
    let ps = replacement_pairs(ks);
    lemma_pairs_upto_shape(ks, ks.len() as int);
    assert forall|k1: int, k2: int| 0 <= k1 < k2 < ps.len() implies ps[k1].1 < ps[k2].1 by {
        let a = ps[k1];
        let b = ps[k2];
        lemma_partner_increasing(ks, a.0 as int, b.0 as int);
    }
}

/// The effective counts of a hunk with nothing discarded.
proof fn lemma_hunk_stats_undiscarded(hunk: DiffHunk, h: int)
    requires
        hunk.lines@.len() <= usize::MAX,
    ensures
        hunk_additions(hunk, h, Set::empty()) == kind_count(hunk, DiffLineKind::Addition),
        hunk_deletions(hunk, h, Set::empty()) == kind_count(hunk, DiffLineKind::Deletion),
{
    let e: Set<(usize, usize)> = Set::empty();
    let n = hunk.lines@.len() as int;
    let lines = hunk.lines@;
    let ks = kinds_of(lines);
    let ps = replacement_pairs(ks);
    let is_add = |i: int| lines[i].kind == DiffLineKind::Addition;
    let is_del = |i: int| lines[i].kind == DiffLineKind::Deletion;
    lemma_count_upto_ext(n, |i: int| counts_as_addition(hunk, h, e, i), is_add);
    lemma_pairs_upto_shape(ks, n);
    lemma_pair_components_increasing(ks);
    // paired additions and paired deletions are both as many as the pairs
    let pa = |i: int| is_pair_addition(ps, i);
    let pd = |i: int| is_pair_deletion(ps, i);
    let seconds = ps.map_values(|p: (usize, usize)| p.1 as int);
    let firsts = ps.map_values(|p: (usize, usize)| p.0 as int);
    assert forall|i: int| 0 <= i < n implies #[trigger] pa(i) == (exists|k: int| 0 <= k < seconds.len() && seconds[k] == i) by {
        if pa(i) {
            let k = choose|k: int| 0 <= k < ps.len() && ps[k].1 == i;
            assert(seconds[k] == i);
        }
        if exists|k: int| 0 <= k < seconds.len() && seconds[k] == i {
            let k = choose|k: int| 0 <= k < seconds.len() && seconds[k] == i;
            assert(ps[k].1 == i);
        }
    }
    assert forall|i: int| 0 <= i < n implies #[trigger] pd(i) == (exists|k: int| 0 <= k < firsts.len() && firsts[k] == i) by {
        if pd(i) {
            let k = choose|k: int| 0 <= k < ps.len() && ps[k].0 == i;
            assert(firsts[k] == i);
        }
        if exists|k: int| 0 <= k < firsts.len() && firsts[k] == i {
            let k = choose|k: int| 0 <= k < firsts.len() && firsts[k] == i;
            assert(ps[k].0 == i);
        }
    }
    assert forall|k: int| 0 <= k < seconds.len() implies 0 <= #[trigger] seconds[k] < n by {
        assert(ps[k].1 < n);
    }
    assert forall|k: int| 0 <= k < firsts.len() implies 0 <= #[trigger] firsts[k] < n by {
        assert(ps[k].0 < n);
    }
    lemma_count_members(n, seconds, pa);
    lemma_count_members(n, firsts, pd);
    // every paired addition is an addition, every paired deletion a deletion
    let add_pa = |i: int| is_add(i) && pa(i);
    let add_npa = |i: int| is_add(i) && !pa(i);
    let del_pd = |i: int| is_del(i) && pd(i);
    let del_npd = |i: int| is_del(i) && !pd(i);
    assert forall|i: int| 0 <= i < n implies #[trigger] add_pa(i) == pa(i) by {
        if pa(i) {
            let k = choose|k: int| 0 <= k < ps.len() && ps[k].1 == i;
            lemma_partner_bounds(ks, ps[k].0 as int);
        }
    }
    assert forall|i: int| 0 <= i < n implies #[trigger] del_pd(i) == pd(i) by {
        if pd(i) {
            let k = choose|k: int| 0 <= k < ps.len() && ps[k].0 == i;
        }
    }
    lemma_count_upto_ext(n, add_pa, pa);
    lemma_count_upto_ext(n, del_pd, pd);
    lemma_count_upto_and_not(n, is_del, pd, del_pd, del_npd);
    // deletions counted: paired additions plus unpaired deletions
    lemma_count_upto_or(n, add_pa, del_npd, |i: int| counts_as_deletion(hunk, h, e, i));
}

proof fn lemma_hunks_stats_undiscarded(hunks: Seq<DiffHunk>, n: int)
    requires
        0 <= n <= hunks.len(),
        forall|h: int| 0 <= h < hunks.len() ==> (#[trigger] hunks[h]).lines@.len() <= usize::MAX,
    ensures
        effective_additions(hunks, Set::empty(), n) == hunks_kind_count(hunks, DiffLineKind::Addition, n),
        effective_deletions(hunks, Set::empty(), n) == hunks_kind_count(hunks, DiffLineKind::Deletion, n),
    decreases n,
{
    if n > 0 {
        lemma_hunks_stats_undiscarded(hunks, n - 1);
        lemma_hunk_stats_undiscarded(hunks[n - 1], n - 1);
    }
}

/// With nothing discarded, the effective stats are the numbers of added and
/// of deleted lines: a replacement pair counts one addition and one deletion,
/// like any other added and deleted line.
pub proof fn law_effective_stats_without_discards(hunks: Seq<DiffHunk>)
    requires
        forall|h: int| 0 <= h < hunks.len() ==> (#[trigger] hunks[h]).lines@.len() <= usize::MAX,
    ensures
        effective_additions(hunks, Set::empty(), hunks.len() as int) == hunks_kind_count(
            hunks,
            DiffLineKind::Addition,
            hunks.len() as int,
        ),
        effective_deletions(hunks, Set::empty(), hunks.len() as int) == hunks_kind_count(
            hunks,
            DiffLineKind::Deletion,
            hunks.len() as int,
        ),
{
    lemma_hunks_stats_undiscarded(hunks, hunks.len() as int);
}

proof fn lemma_count_upto_implies(n: int, p: spec_fn(int) -> bool, q: spec_fn(int) -> bool)
    requires
        forall|i: int| 0 <= i < n && #[trigger] p(i) ==> q(i),
    ensures
        count_upto(n, p) <= count_upto(n, q),
    decreases n,
{
    if n > 0 {
        lemma_count_upto_implies(n - 1, p, q);
    }
}

proof fn lemma_count_upto_none(n: int, p: spec_fn(int) -> bool)
    requires
        forall|i: int| 0 <= i < n ==> !#[trigger] p(i),
    ensures
        count_upto(n, p) == 0,
    decreases n,
{
    if n > 0 {
        lemma_count_upto_none(n - 1, p);
    }
}

proof fn lemma_effective_monotone(hunks: Seq<DiffHunk>, d1: Set<(usize, usize)>, d2: Set<(usize, usize)>, n: int)
    requires
        d1.subset_of(d2),
        0 <= n <= hunks.len(),
    ensures
        effective_additions(hunks, d2, n) <= effective_additions(hunks, d1, n),
        effective_deletions(hunks, d2, n) <= effective_deletions(hunks, d1, n),
    decreases n,
{
    if n > 0 {
        lemma_effective_monotone(hunks, d1, d2, n - 1);
        let hunk = hunks[n - 1];
        let len = hunk.lines@.len() as int;
        lemma_count_upto_implies(
            len,
            |i: int| counts_as_addition(hunk, n - 1, d2, i),
            |i: int| counts_as_addition(hunk, n - 1, d1, i),
        );
        lemma_count_upto_implies(
            len,
            |i: int| counts_as_deletion(hunk, n - 1, d2, i),
            |i: int| counts_as_deletion(hunk, n - 1, d1, i),
        );
    }
}

/// Discarding more never adds to the effective stats: for discard sets
/// `d1 ⊆ d2`, `d2` gives at most the additions and deletions `d1` gives.
pub proof fn law_effective_stats_monotone(hunks: Seq<DiffHunk>, d1: Set<(usize, usize)>, d2: Set<(usize, usize)>)
    requires
        d1.subset_of(d2),
    ensures
        effective_additions(hunks, d2, hunks.len() as int) <= effective_additions(hunks, d1, hunks.len() as int),
        effective_deletions(hunks, d2, hunks.len() as int) <= effective_deletions(hunks, d1, hunks.len() as int),
{
    lemma_effective_monotone(hunks, d1, d2, hunks.len() as int);
}

proof fn lemma_effective_all_discarded(hunks: Seq<DiffHunk>, d: Set<(usize, usize)>, n: int)
    requires
        0 <= n <= hunks.len(),
        forall|h: int, i: int|
            0 <= h < hunks.len() && 0 <= i < hunks[h].lines@.len() && hunks[h].lines@[i].kind != DiffLineKind::Context
                ==> !#[trigger] is_kept(d, h, i),
    ensures
        effective_additions(hunks, d, n) == 0,
        effective_deletions(hunks, d, n) == 0,
    decreases n,
{
    if n > 0 {
        lemma_effective_all_discarded(hunks, d, n - 1);
        let hunk = hunks[n - 1];
        let len = hunk.lines@.len() as int;
        assert forall|i: int| 0 <= i < len implies !#[trigger] counts_as_addition(hunk, n - 1, d, i) by {
            if hunk.lines@[i].kind != DiffLineKind::Context {
                assert(!is_kept(d, n - 1, i));
            }
        }
        assert forall|i: int| 0 <= i < len implies !#[trigger] counts_as_deletion(hunk, n - 1, d, i) by {
            if hunk.lines@[i].kind != DiffLineKind::Context {
                assert(!is_kept(d, n - 1, i));
            }
        }
        lemma_count_upto_none(len, |i: int| counts_as_addition(hunk, n - 1, d, i));
        lemma_count_upto_none(len, |i: int| counts_as_deletion(hunk, n - 1, d, i));
    }
}

/// Discarding every added and deleted line leaves no effective change.
pub proof fn law_effective_stats_all_discarded(hunks: Seq<DiffHunk>, d: Set<(usize, usize)>)
    requires
        forall|h: int, i: int|
            0 <= h < hunks.len() && 0 <= i < hunks[h].lines@.len() && hunks[h].lines@[i].kind != DiffLineKind::Context
                ==> !#[trigger] is_kept(d, h, i),
    ensures
        effective_additions(hunks, d, hunks.len() as int) == 0,
        effective_deletions(hunks, d, hunks.len() as int) == 0,
{
    lemma_effective_all_discarded(hunks, d, hunks.len() as int);
}

proof fn lemma_effective_like_empty(hunks: Seq<DiffHunk>, d: Set<(usize, usize)>, n: int)
    requires
        0 <= n <= hunks.len(),
        forall|h: int, i: int|
            0 <= h < hunks.len() && 0 <= i < hunks[h].lines@.len() && (hunks[h].lines@[i].kind == DiffLineKind::Addition
                || (hunks[h].lines@[i].kind == DiffLineKind::Deletion && !is_pair_deletion(
                replacement_pairs(kinds_of(hunks[h].lines@)),
                i,
            ))) ==> #[trigger] is_kept(d, h, i),
    ensures
        effective_additions(hunks, d, n) == effective_additions(hunks, Set::empty(), n),
        effective_deletions(hunks, d, n) == effective_deletions(hunks, Set::empty(), n),
    decreases n,
{
    if n > 0 {
        lemma_effective_like_empty(hunks, d, n - 1);
        let hunk = hunks[n - 1];
        let len = hunk.lines@.len() as int;
        let e = Set::<(usize, usize)>::empty();
        assert forall|i: int| 0 <= i < len implies #[trigger] counts_as_addition(hunk, n - 1, d, i)
            == counts_as_addition(hunk, n - 1, e, i) by {
            if hunk.lines@[i].kind == DiffLineKind::Addition {
                assert(is_kept(d, n - 1, i));
            }
        }
        assert forall|i: int| 0 <= i < len implies #[trigger] counts_as_deletion(hunk, n - 1, d, i)
            == counts_as_deletion(hunk, n - 1, e, i) by {
            let k = hunk.lines@[i].kind;
            if k == DiffLineKind::Addition || (k == DiffLineKind::Deletion && !is_pair_deletion(
                replacement_pairs(kinds_of(hunk.lines@)),
                i,
            )) {
                assert(is_kept(d, n - 1, i));
            }
        }
        lemma_count_upto_ext(
            len,
            |i: int| counts_as_addition(hunk, n - 1, d, i),
            |i: int| counts_as_addition(hunk, n - 1, e, i),
        );
        lemma_count_upto_ext(
            len,
            |i: int| counts_as_deletion(hunk, n - 1, d, i),
            |i: int| counts_as_deletion(hunk, n - 1, e, i),
        );
    }
}

/// Discarding only lines that have no toggle of their own (context lines
/// and the deletions of replacement pairs) leaves the stats as they are
/// with nothing discarded: the numbers of added and deleted lines.
pub proof fn law_effective_stats_ignore_untoggled(hunks: Seq<DiffHunk>, d: Set<(usize, usize)>)
    requires
        forall|h: int| 0 <= h < hunks.len() ==> (#[trigger] hunks[h]).lines@.len() <= usize::MAX,
        forall|h: int, i: int|
            0 <= h < hunks.len() && 0 <= i < hunks[h].lines@.len() && (hunks[h].lines@[i].kind == DiffLineKind::Addition
                || (hunks[h].lines@[i].kind == DiffLineKind::Deletion && !is_pair_deletion(
                replacement_pairs(kinds_of(hunks[h].lines@)),
                i,
            ))) ==> #[trigger] is_kept(d, h, i),
    ensures
        effective_additions(hunks, d, hunks.len() as int) == hunks_kind_count(
            hunks,
            DiffLineKind::Addition,
            hunks.len() as int,
        ),
        effective_deletions(hunks, d, hunks.len() as int) == hunks_kind_count(
            hunks,
            DiffLineKind::Deletion,
            hunks.len() as int,
        ),
{
    lemma_effective_like_empty(hunks, d, hunks.len() as int);
    lemma_hunks_stats_undiscarded(hunks, hunks.len() as int);
}

proof fn lemma_pairs_upto_has(ks: Seq<DiffLineKind>, n: int, d: int)
    requires
        0 <= d < n <= ks.len(),
        ks.len() <= usize::MAX,
        is_paired_del(ks, d),
    ensures
        exists|k: int| 0 <= k < pairs_upto(ks, n).len() && #[trigger] pairs_upto(ks, n)[k] == (d as usize, partner(ks, d) as usize),
    decreases n,
{
    lemma_partner_bounds(ks, d);
    if d == n - 1 {
        let ps = pairs_upto(ks, n);
        assert(ps[ps.len() - 1] == (d as usize, partner(ks, d) as usize));
    } else {
        lemma_pairs_upto_has(ks, n - 1, d);
        let prev = pairs_upto(ks, n - 1);
        let k = choose|k: int| 0 <= k < prev.len() && #[trigger] prev[k] == (d as usize, partner(ks, d) as usize);
        if is_paired_del(ks, n - 1) {
            assert(pairs_upto(ks, n)[k] == prev[k]);
        } else {
            assert(pairs_upto(ks, n) == prev);
        }
        assert(pairs_upto(ks, n)[k] == (d as usize, partner(ks, d) as usize));
    }
}

/// The replacement pairs, run by run: a deletion at offset `j` of a run of
/// deletions that a run of additions directly follows is paired with the
/// addition at offset `j` of that run, as long as the additions last; the
/// pairs are exactly these, in increasing order of both indexes, so no
/// line is in two pairs and the excess lines of the longer run are
/// unpaired.
pub proof fn law_replacement_pairs_by_runs(ks: Seq<DiffLineKind>)
    requires
        ks.len() <= usize::MAX,
    ensures
        forall|k: int|
            0 <= k < replacement_pairs(ks).len() ==> {
                let p = #[trigger] replacement_pairs(ks)[k];
                &&& is_paired_del(ks, p.0 as int)
                &&& p.1 == partner(ks, p.0 as int)
                &&& ks[p.0 as int] == DiffLineKind::Deletion
                &&& ks[p.1 as int] == DiffLineKind::Addition
                &&& p.0 < p.1
            },
        forall|d: int|
            0 <= d < ks.len() ==> (#[trigger] is_paired_del(ks, d) <==> exists|k: int|
                0 <= k < replacement_pairs(ks).len() && replacement_pairs(ks)[k].0 == d),
        forall|k1: int, k2: int|
            0 <= k1 < k2 < replacement_pairs(ks).len() ==> replacement_pairs(ks)[k1].0 < replacement_pairs(ks)[k2].0
                && replacement_pairs(ks)[k1].1 < replacement_pairs(ks)[k2].1,
{
    let ps = replacement_pairs(ks);
    let n = ks.len() as int;
    lemma_pairs_upto_shape(ks, n);
    assert forall|k: int| 0 <= k < ps.len() implies {
        let p = #[trigger] ps[k];
        &&& is_paired_del(ks, p.0 as int)
        &&& p.1 == partner(ks, p.0 as int)
        &&& ks[p.0 as int] == DiffLineKind::Deletion
        &&& ks[p.1 as int] == DiffLineKind::Addition
        &&& p.0 < p.1
    } by {
        lemma_partner_bounds(ks, ps[k].0 as int);
    }
    assert forall|d: int| 0 <= d < ks.len() implies (#[trigger] is_paired_del(ks, d) <==> exists|k: int|
        0 <= k < ps.len() && ps[k].0 == d) by {
        if is_paired_del(ks, d) {
            lemma_pairs_upto_has(ks, n, d);
            let k = choose|k: int| 0 <= k < ps.len() && #[trigger] ps[k] == (d as usize, partner(ks, d) as usize);
            assert(ps[k].0 == d);
        }
        if exists|k: int| 0 <= k < ps.len() && ps[k].0 == d {
            let k = choose|k: int| 0 <= k < ps.len() && ps[k].0 == d;
            assert(is_paired_del(ks, ps[k].0 as int));
        }
    }
    assert forall|k1: int, k2: int| 0 <= k1 < k2 < ps.len() implies ps[k1].0 < ps[k2].0 && ps[k1].1 < ps[k2].1 by {
        let a = ps[k1];
        let b = ps[k2];
        lemma_partner_increasing(ks, a.0 as int, b.0 as int);
    }
}

} // verus!
