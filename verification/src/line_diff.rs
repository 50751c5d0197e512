//! Computing the diff of two file versions: binary detection, the line
//! diff (delegated to `similar`), and the hunks and counts built from it.
use vstd::prelude::*;

use crate::diff::{
    count_upto, effective_additions, effective_deletions, hunks_kind_count, kind_count,
    law_effective_stats_without_discards, DiffHunk, DiffLine, DiffLineKind, DiffStats, FileDiff,
};

verus! {

/// What a line change of a line diff does.
#[derive(Clone, Copy, PartialEq, Eq, Structural, Debug)]
pub enum ChangeKind {
    Equal,
    Insert,
    Delete,
}

/// One line of a line diff: its kind, its 0-based index in the old and new
/// texts (where it occurs there), and the line's text.
pub struct LineChange {
    pub kind: ChangeKind,
    pub old_index: Option<usize>,
    pub new_index: Option<usize>,
    pub text: String,
}

/// A line change as plain values.
pub open spec fn change_view(c: LineChange) -> (ChangeKind, Option<usize>, Option<usize>, Seq<char>) {
    (c.kind, c.old_index, c.new_index, c.text@)
}

pub open spec fn group_view(g: Seq<LineChange>) -> Seq<(ChangeKind, Option<usize>, Option<usize>, Seq<char>)> {
    g.map_values(|c: LineChange| change_view(c))
}

pub open spec fn groups_view(gs: Seq<Vec<LineChange>>) -> Seq<Seq<(ChangeKind, Option<usize>, Option<usize>, Seq<char>)>> {
    gs.map_values(|g: Vec<LineChange>| group_view(g@))
}

/// The line diff of two texts that `similar` computes, grouped into hunks
/// with `context` unchanged lines around each change.
pub uninterp spec fn grouped_line_changes(old: Seq<char>, new: Seq<char>, context: nat) -> Seq<Seq<(ChangeKind, Option<usize>, Option<usize>, Seq<char>)>>;

/// The kinds of all line changes of the line diff that `similar` computes.
pub uninterp spec fn all_line_change_kinds(old: Seq<char>, new: Seq<char>) -> Seq<ChangeKind>;

/// The text `String::from_utf8_lossy` makes of some bytes.
pub uninterp spec fn utf8_lossy(bytes: Seq<u8>) -> Seq<char>;

/// Number of changes in all groups.
pub open spec fn total_changes(gs: Seq<Seq<(ChangeKind, Option<usize>, Option<usize>, Seq<char>)>>) -> nat
    decreases gs.len(),
{
    if gs.len() == 0 {
        0
    } else {
        total_changes(gs.drop_last()) + gs.last().len()
    }
}

/// A change carries the line indexes of its kind: an unchanged line both,
/// an inserted line only the new one, a deleted line only the old one.
pub open spec fn indexes_fit_kind(c: (ChangeKind, Option<usize>, Option<usize>, Seq<char>)) -> bool {
    match c.0 {
        ChangeKind::Equal => c.1 is Some && c.2 is Some,
        ChangeKind::Insert => c.1 is None && c.2 is Some,
        ChangeKind::Delete => c.1 is Some && c.2 is None,
    }
}

/// A diff line carries the line numbers of its kind: a context line both,
/// an added line only the new one, a deleted line only the old one.
pub open spec fn linenos_fit_kind(l: DiffLine) -> bool {
    match l.kind {
        DiffLineKind::Context => l.old_lineno is Some && l.new_lineno is Some,
        DiffLineKind::Addition => l.old_lineno is None && l.new_lineno is Some,
        DiffLineKind::Deletion => l.old_lineno is Some && l.new_lineno is None,
    }
}

/// Decodes bytes as UTF-8, replacing invalid sequences with U+FFFD.
///
/// Calls `String::from_utf8_lossy` from std. Trusted: the result is the
/// named function of the bytes, and every character comes from at least
/// one byte, so there are no more characters than bytes.
#[verifier::external_body]
pub(crate) fn from_utf8_lossy(bytes: &[u8]) -> (s: String)
    ensures
        s@ == utf8_lossy(bytes@),
        s@.len() <= bytes@.len(),
{
    String::from_utf8_lossy(bytes).into_owned()
}

/// The line diff of `old` and `new`, grouped with `context` lines.
///
/// Calls `similar::TextDiff::from_lines`, then `TextDiff::grouped_ops` and
/// `TextDiff::iter_changes`, and converts each `similar::Change` to a
/// `LineChange` (its tag, old and new index, and lossy text). Trusted: the
/// result is the named function of the texts and `context`; each change
/// takes at least one line of `old` or `new`, and a line is never empty, so
/// there are no more changes than characters, and line indexes are below
/// the character counts. The groups come from the same diff operations as
/// `iter_all_changes` (`similar::group_diff_ops` puts every operation that
/// is not `Equal` in exactly one group), so they hold as many inserted and
/// deleted lines as the whole diff does; the diff is an edit script from
/// `old` to `new` whose tokens are whole lines, so it has no inserted or
/// deleted line exactly when the texts are equal. `ChangesIter` gives an
/// `Equal` change both indexes, an `Insert` only the new one and a `Delete`
/// only the old one. `group_diff_ops` compares run
/// lengths with `2 * context`, so `context` is kept to half the range.
#[verifier::external_body]
pub(crate) fn grouped_changes(old: &str, new: &str, context: usize) -> (r: Vec<Vec<LineChange>>)
    requires
        context <= usize::MAX / 2,
    ensures
        groups_view(r@) == grouped_line_changes(old@, new@, context as nat),
        groups_count(groups_view(r@), |k: ChangeKind| is_insert(k), r@.len() as int) == count_kinds(
            all_line_change_kinds(old@, new@),
            |k: ChangeKind| is_insert(k),
            all_line_change_kinds(old@, new@).len() as int,
        ),
        groups_count(groups_view(r@), |k: ChangeKind| is_delete(k), r@.len() as int) == count_kinds(
            all_line_change_kinds(old@, new@),
            |k: ChangeKind| is_delete(k),
            all_line_change_kinds(old@, new@).len() as int,
        ),
        (groups_count(groups_view(r@), |k: ChangeKind| is_insert(k), r@.len() as int) == 0 && groups_count(
            groups_view(r@),
            |k: ChangeKind| is_delete(k),
            r@.len() as int,
        ) == 0) <==> old@ == new@,
        forall|k: int, j: int|
            0 <= k < r@.len() && 0 <= j < r@[k]@.len() ==> indexes_fit_kind(#[trigger] groups_view(r@)[k][j]),
        total_changes(groups_view(r@)) <= old@.len() + new@.len(),
        forall|k: int, j: int|
            0 <= k < r@.len() && 0 <= j < r@[k]@.len() ==> {
                &&& (#[trigger] r@[k]@[j]).old_index matches Some(i) ==> i < old@.len()
                &&& r@[k]@[j].new_index matches Some(i) ==> i < new@.len()
            },
{
    let diff = similar::TextDiff::from_lines(old, new);
    diff.grouped_ops(context).iter().map(|group| {
        group.iter().flat_map(|op| diff.iter_changes(op)).map(|c| LineChange {
            kind: match c.tag() {
                similar::ChangeTag::Equal => ChangeKind::Equal,
                similar::ChangeTag::Insert => ChangeKind::Insert,
                similar::ChangeTag::Delete => ChangeKind::Delete,
            },
            old_index: c.old_index(),
            new_index: c.new_index(),
            text: c.to_string_lossy().into_owned(),
        }).collect()
    }).collect()
}

/// The kinds of all line changes between `old` and `new`.
///
/// Calls `similar::TextDiff::from_lines` and `TextDiff::iter_all_changes`,
/// keeping each change's tag. Trusted: the result is the named function of
/// the texts, with no more changes than characters; equal texts differ by
/// no line (the Myers diff takes their common prefix, all of them, as one
/// `Equal` operation).
#[verifier::external_body]
pub(crate) fn all_change_kinds(old: &str, new: &str) -> (r: Vec<ChangeKind>)
    ensures
        r@ == all_line_change_kinds(old@, new@),
        r@.len() <= old@.len() + new@.len(),
        old@ == new@ ==> forall|k: int| 0 <= k < r@.len() ==> r@[k] == ChangeKind::Equal,
{
    similar::TextDiff::from_lines(old, new).iter_all_changes().map(|c| match c.tag() {
        similar::ChangeTag::Equal => ChangeKind::Equal,
        similar::ChangeTag::Insert => ChangeKind::Insert,
        similar::ChangeTag::Delete => ChangeKind::Delete,
    }).collect()
}

/// Some NUL byte among the first 8192 bytes.
pub open spec fn looks_binary(data: Seq<u8>) -> bool {
    exists|i: int| 0 <= i < data.len() && i < 8192 && data[i] == 0
}

/// Binary detection: a NUL byte among the first 8 KiB.
pub fn is_binary(data: &[u8]) -> (r: bool)
    ensures
        r == looks_binary(data@),
{
    let check_len = if data.len() < 8192 {
        data.len()
    } else {
        8192
    };
    let mut i: usize = 0;
    while i < check_len
        invariant
            0 <= i <= check_len,
            check_len <= data@.len(),
            check_len == data@.len() || check_len == 8192,
            check_len <= 8192,
            forall|j: int| 0 <= j < i ==> data@[j] != 0,
        decreases check_len - i,
    {
        if data[i] == 0 {
            assert(data@[i as int] == 0 && (i as int) < 8192);
            return true;
        }
        i += 1;
    }
    false
}

/// Number of the first `n` changes whose kind satisfies `p`.
pub open spec fn count_kinds(ks: Seq<ChangeKind>, p: spec_fn(ChangeKind) -> bool, n: int) -> nat
    decreases n,
{
    if n <= 0 {
        0
    } else {
        count_kinds(ks, p, n - 1) + if p(ks[n - 1]) {
            1nat
        } else {
            0nat
        }
    }
}

pub open spec fn is_insert(k: ChangeKind) -> bool {
    k == ChangeKind::Insert
}

pub open spec fn is_delete(k: ChangeKind) -> bool {
    k == ChangeKind::Delete
}

pub open spec fn is_old_side(k: ChangeKind) -> bool {
    k == ChangeKind::Equal || k == ChangeKind::Delete
}

pub open spec fn is_new_side(k: ChangeKind) -> bool {
    k == ChangeKind::Equal || k == ChangeKind::Insert
}

pub open spec fn group_kinds(g: Seq<(ChangeKind, Option<usize>, Option<usize>, Seq<char>)>) -> Seq<ChangeKind> {
    g.map_values(|c: (ChangeKind, Option<usize>, Option<usize>, Seq<char>)| c.0)
}

proof fn lemma_count_kinds_le(ks: Seq<ChangeKind>, p: spec_fn(ChangeKind) -> bool, n: int)
    requires
        0 <= n,
    ensures
        count_kinds(ks, p, n) <= n,
    decreases n,
{
    if n > 0 {
        lemma_count_kinds_le(ks, p, n - 1);
    }
}

/// The counts both `compute_file_stats` and `compute_file_diff` report
/// for two file versions: added lines, deleted lines, and whether the
/// content is binary (then no lines are counted).
pub open spec fn diff_counts(old: Seq<u8>, new: Seq<u8>) -> (int, int, bool) {
    if looks_binary(old) || looks_binary(new) {
        (0, 0, true)
    } else {
        let ks = all_line_change_kinds(utf8_lossy(old), utf8_lossy(new));
        (
            count_kinds(ks, |k: ChangeKind| is_insert(k), ks.len() as int) as int,
            count_kinds(ks, |k: ChangeKind| is_delete(k), ks.len() as int) as int,
            false,
        )
    }
}

/// The stats-only diff and the full diff of the same two versions agree:
/// the same added and deleted line counts, and the same binary flag.
pub proof fn law_stats_agree_with_diff(old: Seq<u8>, new: Seq<u8>, stats: (DiffStats, bool), d: FileDiff)
    requires
        (stats.0.additions as int, stats.0.deletions as int, stats.1) == diff_counts(old, new),
        (d.additions as int, d.deletions as int, d.is_binary) == diff_counts(old, new),
    ensures
        stats.0.additions == d.additions,
        stats.0.deletions == d.deletions,
        stats.1 == d.is_binary,
{
}

/// Additions and deletions counted from the kinds of a line diff.
pub fn stats_from_kinds(kinds: &Vec<ChangeKind>) -> (r: DiffStats)
    ensures
        r.additions == count_kinds(kinds@, |k: ChangeKind| is_insert(k), kinds@.len() as int),
        r.deletions == count_kinds(kinds@, |k: ChangeKind| is_delete(k), kinds@.len() as int),
{
    let ghost pi = |k: ChangeKind| is_insert(k);
    let ghost pd = |k: ChangeKind| is_delete(k);
    let mut additions: usize = 0;
    let mut deletions: usize = 0;
    let mut i: usize = 0;
    while i < kinds.len()
        invariant
            0 <= i <= kinds@.len(),
            pi == (|k: ChangeKind| is_insert(k)),
            pd == (|k: ChangeKind| is_delete(k)),
            additions == count_kinds(kinds@, pi, i as int),
            deletions == count_kinds(kinds@, pd, i as int),
            additions + deletions <= i,
        decreases kinds@.len() - i,
    {
        match kinds[i] {
            ChangeKind::Insert => additions += 1,
            ChangeKind::Delete => deletions += 1,
            ChangeKind::Equal => {},
        }
        i += 1;
    }
    DiffStats { additions, deletions }
}

/// Stats-only variant of `compute_file_diff`. Runs the same line diff but
/// doesn't materialize `DiffHunk`/`DiffLine` vecs — use when the caller only
/// needs addition/deletion counts (e.g. header totals for unexpanded rows).
pub fn compute_file_stats(old: &[u8], new: &[u8]) -> (r: (DiffStats, bool))
    ensures
        r.1 == (looks_binary(old@) || looks_binary(new@)),
        r.1 ==> r.0.additions == 0 && r.0.deletions == 0,
        !r.1 ==> {
            let ks = all_line_change_kinds(utf8_lossy(old@), utf8_lossy(new@));
            &&& r.0.additions == count_kinds(ks, |k: ChangeKind| is_insert(k), ks.len() as int)
            &&& r.0.deletions == count_kinds(ks, |k: ChangeKind| is_delete(k), ks.len() as int)
        },
        old@ == new@ ==> r.0.additions == 0 && r.0.deletions == 0,
        (r.0.additions as int, r.0.deletions as int, r.1) == diff_counts(old@, new@),
{
    if is_binary(old) || is_binary(new) {
        return (DiffStats::default(), true);
    }
    let old_text = from_utf8_lossy(old);
    let new_text = from_utf8_lossy(new);
    let kinds = all_change_kinds(old_text.as_str(), new_text.as_str());
    let stats = stats_from_kinds(&kinds);
    proof {
        if old@ == new@ {
            lemma_count_all_equal(kinds@, |k: ChangeKind| is_insert(k), kinds@.len() as int);
            lemma_count_all_equal(kinds@, |k: ChangeKind| is_delete(k), kinds@.len() as int);
        }
    }
    (stats, false)
}

/// No change of a diff whose changes are all `Equal` is an insert or a
/// delete.
proof fn lemma_count_all_equal(ks: Seq<ChangeKind>, p: spec_fn(ChangeKind) -> bool, n: int)
    requires
        0 <= n <= ks.len(),
        forall|k: int| 0 <= k < ks.len() ==> ks[k] == ChangeKind::Equal,
        !p(ChangeKind::Equal),
    ensures
        count_kinds(ks, p, n) == 0,
    decreases n,
{
    if n > 0 {
        lemma_count_all_equal(ks, p, n - 1);
    }
}

/// 1-based line number of an optional 0-based index.
pub open spec fn lineno(i: Option<usize>) -> Option<usize> {
    match i {
        Some(k) => Some((k + 1) as usize),
        None => None,
    }
}

/// The diff line made of a line change.
pub open spec fn line_of_change(l: DiffLine, c: (ChangeKind, Option<usize>, Option<usize>, Seq<char>)) -> bool {
    &&& l.kind == match c.0 {
        ChangeKind::Equal => DiffLineKind::Context,
        ChangeKind::Insert => DiffLineKind::Addition,
        ChangeKind::Delete => DiffLineKind::Deletion,
    }
    &&& l.old_lineno == lineno(c.1)
    &&& l.new_lineno == lineno(c.2)
    &&& l.content@ == c.3
}

/// The hunk made of a group of line changes: one line per change, starting
/// at the first change's line numbers (1 where it has none; 0 for an empty
/// group), counting old-side and new-side lines.
pub open spec fn hunk_of_group(hunk: DiffHunk, g: Seq<(ChangeKind, Option<usize>, Option<usize>, Seq<char>)>) -> bool {
    let ks = group_kinds(g);
    &&& hunk.lines@.len() == g.len()
    &&& forall|j: int| 0 <= j < g.len() ==> line_of_change(#[trigger] hunk.lines@[j], g[j])
    &&& hunk.old_start == if g.len() == 0 {
        0
    } else {
        match lineno(g[0].1) {
            Some(n) => n,
            None => 1,
        }
    }
    &&& hunk.new_start == if g.len() == 0 {
        0
    } else {
        match lineno(g[0].2) {
            Some(n) => n,
            None => 1,
        }
    }
    &&& hunk.old_count == count_kinds(ks, |k: ChangeKind| is_old_side(k), g.len() as int)
    &&& hunk.new_count == count_kinds(ks, |k: ChangeKind| is_new_side(k), g.len() as int)
}

/// Additions (`insert`) or deletions (`delete`) over the first `n` groups.
pub open spec fn groups_count(
    gs: Seq<Seq<(ChangeKind, Option<usize>, Option<usize>, Seq<char>)>>,
    p: spec_fn(ChangeKind) -> bool,
    n: int,
) -> nat
    decreases n,
{
    if n <= 0 {
        0
    } else {
        groups_count(gs, p, n - 1) + count_kinds(group_kinds(gs[n - 1]), p, gs[n - 1].len() as int)
    }
}

/// The text diff made of grouped line changes: one hunk per group, and the
/// numbers of inserted and deleted lines.
pub open spec fn diff_of_groups(d: FileDiff, gs: Seq<Seq<(ChangeKind, Option<usize>, Option<usize>, Seq<char>)>>) -> bool {
    &&& !d.is_binary
    &&& d.hunks@.len() == gs.len()
    &&& forall|k: int| 0 <= k < gs.len() ==> hunk_of_group(#[trigger] d.hunks@[k], gs[k])
    &&& d.additions == groups_count(gs, |k: ChangeKind| is_insert(k), gs.len() as int)
    &&& d.deletions == groups_count(gs, |k: ChangeKind| is_delete(k), gs.len() as int)
}

proof fn lemma_groups_count_le(
    gs: Seq<Seq<(ChangeKind, Option<usize>, Option<usize>, Seq<char>)>>,
    p: spec_fn(ChangeKind) -> bool,
    n: int,
)
    requires
        0 <= n <= gs.len(),
    ensures
        groups_count(gs, p, n) <= total_changes(gs.take(n)),
    decreases n,
{
    if n > 0 {
        lemma_groups_count_le(gs, p, n - 1);
        lemma_count_kinds_le(group_kinds(gs[n - 1]), p, gs[n - 1].len() as int);
        assert(gs.take(n).drop_last() == gs.take(n - 1));
    }
}

proof fn lemma_total_changes_take(gs: Seq<Seq<(ChangeKind, Option<usize>, Option<usize>, Seq<char>)>>, n: int)
    requires
        0 <= n <= gs.len(),
    ensures
        total_changes(gs.take(n)) <= total_changes(gs),
    decreases gs.len() - n,
{
    if n < gs.len() {
        lemma_total_changes_take(gs, n + 1);
        assert(gs.take(n + 1).drop_last() == gs.take(n));
    } else {
        assert(gs.take(n) == gs);
    }
}

/// The hunk of one group of line changes.
fn hunk_from_group(group: &Vec<LineChange>) -> (hunk: DiffHunk)
    requires
        forall|j: int|
            0 <= j < group@.len() ==> {
                &&& (#[trigger] group@[j]).old_index matches Some(i) ==> i < usize::MAX
                &&& group@[j].new_index matches Some(i) ==> i < usize::MAX
            },
    ensures
        hunk_of_group(hunk, group_view(group@)),
{
    let ghost g = group_view(group@);
    let ghost ks = group_kinds(g);
    let ghost po = |k: ChangeKind| is_old_side(k);
    let ghost pn = |k: ChangeKind| is_new_side(k);
    let mut lines: Vec<DiffLine> = Vec::new();
    let mut old_start: usize = 0;
    let mut new_start: usize = 0;
    let mut old_count: usize = 0;
    let mut new_count: usize = 0;
    let mut i: usize = 0;
    while i < group.len()
        invariant
            0 <= i <= group@.len(),
            g == group_view(group@),
            ks == group_kinds(g),
            po == (|k: ChangeKind| is_old_side(k)),
            pn == (|k: ChangeKind| is_new_side(k)),
            forall|j: int|
                0 <= j < group@.len() ==> {
                    &&& (#[trigger] group@[j]).old_index matches Some(i) ==> i < usize::MAX
                    &&& group@[j].new_index matches Some(i) ==> i < usize::MAX
                },
            lines@.len() == i,
            forall|j: int| 0 <= j < i ==> line_of_change(#[trigger] lines@[j], g[j]),
            i > 0 ==> old_start == match lineno(g[0].1) {
                Some(n) => n,
                None => 1,
            },
            i > 0 ==> new_start == match lineno(g[0].2) {
                Some(n) => n,
                None => 1,
            },
            i == 0 ==> old_start == 0 && new_start == 0,
            old_count == count_kinds(ks, po, i as int),
            new_count == count_kinds(ks, pn, i as int),
            old_count <= i,
            new_count <= i,
        decreases group@.len() - i,
    {
        let c = &group[i];
        let old_ln = match c.old_index {
            Some(k) => Some(k + 1),
            None => None,
        };
        let new_ln = match c.new_index {
            Some(k) => Some(k + 1),
            None => None,
        };
        if i == 0 {
            old_start = match old_ln {
                Some(n) => n,
                None => 1,
            };
            new_start = match new_ln {
                Some(n) => n,
                None => 1,
            };
        }
        let kind = match c.kind {
            ChangeKind::Equal => {
                old_count += 1;
                new_count += 1;
                DiffLineKind::Context
            },
            ChangeKind::Insert => {
                new_count += 1;
                DiffLineKind::Addition
            },
            ChangeKind::Delete => {
                old_count += 1;
                DiffLineKind::Deletion
            },
        };
        let content = c.text.clone();
        lines.push(DiffLine { kind, old_lineno: old_ln, new_lineno: new_ln, content });
        proof {
            assert(g[i as int] == change_view(group@[i as int]));
            assert(ks[i as int] == group@[i as int].kind);
        }
        i += 1;
    }
    DiffHunk { old_start, old_count, new_start, new_count, lines }
}

/// The text diff made of grouped line changes (the result of
/// `grouped_changes`).
pub fn file_diff_from_groups(groups: &Vec<Vec<LineChange>>) -> (d: FileDiff)
    requires
        total_changes(groups_view(groups@)) <= usize::MAX,
        forall|k: int, j: int|
            0 <= k < groups@.len() && 0 <= j < groups@[k]@.len() ==> {
                &&& (#[trigger] groups@[k]@[j]).old_index matches Some(i) ==> i < usize::MAX
                &&& groups@[k]@[j].new_index matches Some(i) ==> i < usize::MAX
            },
    ensures
        diff_of_groups(d, groups_view(groups@)),
{
    let ghost gs = groups_view(groups@);
    let ghost pi = |k: ChangeKind| is_insert(k);
    let ghost pd = |k: ChangeKind| is_delete(k);
    let mut hunks: Vec<DiffHunk> = Vec::new();
    let mut total_add: usize = 0;
    let mut total_del: usize = 0;
    let mut k: usize = 0;
    while k < groups.len()
        invariant
            0 <= k <= groups@.len(),
            gs == groups_view(groups@),
            pi == (|k: ChangeKind| is_insert(k)),
            pd == (|k: ChangeKind| is_delete(k)),
            total_changes(gs) <= usize::MAX,
            forall|k: int, j: int|
                0 <= k < groups@.len() && 0 <= j < groups@[k]@.len() ==> {
                    &&& (#[trigger] groups@[k]@[j]).old_index matches Some(i) ==> i < usize::MAX
                    &&& groups@[k]@[j].new_index matches Some(i) ==> i < usize::MAX
                },
            hunks@.len() == k,
            forall|q: int| 0 <= q < k ==> hunk_of_group(#[trigger] hunks@[q], gs[q]),
            total_add == groups_count(gs, pi, k as int),
            total_del == groups_count(gs, pd, k as int),
        decreases groups@.len() - k,
    {
        let group = &groups[k];
        proof {
            assert(gs[k as int] == group_view(group@));
            assert forall|j: int| 0 <= j < group@.len() implies {
                &&& (#[trigger] group@[j]).old_index matches Some(i) ==> i < usize::MAX
                &&& group@[j].new_index matches Some(i) ==> i < usize::MAX
            } by {
                assert(groups@[k as int]@[j] == group@[j]);
            }
        }
        let hunk = hunk_from_group(group);
        let ghost ks = group_kinds(gs[k as int]);
        let mut adds: usize = 0;
        let mut dels: usize = 0;
        let mut j: usize = 0;
        proof {
            lemma_groups_count_le(gs, pi, k as int + 1);
            lemma_groups_count_le(gs, pd, k as int + 1);
            lemma_total_changes_take(gs, k as int + 1);
        }
        while j < group.len()
            invariant
                0 <= j <= group@.len(),
                k < groups@.len(),
                gs == groups_view(groups@),
                gs[k as int] == group_view(group@),
                ks == group_kinds(gs[k as int]),
                pi == (|k: ChangeKind| is_insert(k)),
                pd == (|k: ChangeKind| is_delete(k)),
                adds == count_kinds(ks, pi, j as int),
                dels == count_kinds(ks, pd, j as int),
                adds <= j,
                dels <= j,
            decreases group@.len() - j,
        {
            proof {
                assert(ks[j as int] == group@[j as int].kind);
            }
            match group[j].kind {
                ChangeKind::Insert => adds += 1,
                ChangeKind::Delete => dels += 1,
                ChangeKind::Equal => {},
            }
            j += 1;
        }
        total_add = total_add + adds;
        total_del = total_del + dels;
        hunks.push(hunk);
        k += 1;
    }
    FileDiff { additions: total_add, deletions: total_del, hunks, is_binary: false }
}

/// The diff of two file versions. Binary content (a NUL byte in the first
/// 8 KiB of either side) gives an empty binary diff; text is diffed by lines
/// with one line of context around each change.
pub fn compute_file_diff(old: &[u8], new: &[u8]) -> (d: FileDiff)
    requires
        old@.len() + new@.len() <= usize::MAX,
    ensures
        (looks_binary(old@) || looks_binary(new@)) ==> d.is_binary && d.additions == 0
            && d.deletions == 0 && d.hunks@.len() == 0,
        !(looks_binary(old@) || looks_binary(new@)) ==> diff_of_groups(
            d,
            grouped_line_changes(utf8_lossy(old@), utf8_lossy(new@), 1),
        ),
        !(looks_binary(old@) || looks_binary(new@)) ==> {
            let ks = all_line_change_kinds(utf8_lossy(old@), utf8_lossy(new@));
            &&& d.additions == count_kinds(ks, |k: ChangeKind| is_insert(k), ks.len() as int)
            &&& d.deletions == count_kinds(ks, |k: ChangeKind| is_delete(k), ks.len() as int)
        },
        !(looks_binary(old@) || looks_binary(new@)) ==> ((d.additions == 0 && d.deletions == 0) <==> utf8_lossy(old@)
            == utf8_lossy(new@)),
        forall|k: int, j: int|
            0 <= k < d.hunks@.len() && 0 <= j < d.hunks@[k].lines@.len() ==> linenos_fit_kind(
                #[trigger] d.hunks@[k].lines@[j],
            ),
        (d.additions as int, d.deletions as int, d.is_binary) == diff_counts(old@, new@),
{
    if is_binary(old) || is_binary(new) {
        return FileDiff { additions: 0, deletions: 0, hunks: Vec::new(), is_binary: true };
    }
    let old_text = from_utf8_lossy(old);
    let new_text = from_utf8_lossy(new);
    let groups = grouped_changes(old_text.as_str(), new_text.as_str(), 1);
    let d = file_diff_from_groups(&groups);
    proof {
        let gs = groups_view(groups@);
        assert forall|k: int, j: int|
            0 <= k < d.hunks@.len() && 0 <= j < d.hunks@[k].lines@.len() implies linenos_fit_kind(
            #[trigger] d.hunks@[k].lines@[j],
        ) by {
            assert(hunk_of_group(d.hunks@[k], gs[k]));
            assert(line_of_change(d.hunks@[k].lines@[j], gs[k][j]));
            assert(indexes_fit_kind(groups_view(groups@)[k][j]));
        }
    }
    d
}

proof fn lemma_kind_count_of_group(
    hunk: DiffHunk,
    g: Seq<(ChangeKind, Option<usize>, Option<usize>, Seq<char>)>,
    n: int,
)
    requires
        hunk_of_group(hunk, g),
        0 <= n <= g.len(),
    ensures
        count_upto(n, |i: int| hunk.lines@[i].kind == DiffLineKind::Addition) == count_kinds(
            group_kinds(g),
            |k: ChangeKind| is_insert(k),
            n,
        ),
        count_upto(n, |i: int| hunk.lines@[i].kind == DiffLineKind::Deletion) == count_kinds(
            group_kinds(g),
            |k: ChangeKind| is_delete(k),
            n,
        ),
    decreases n,
{
    if n > 0 {
        lemma_kind_count_of_group(hunk, g, n - 1);
        assert(line_of_change(hunk.lines@[n - 1], g[n - 1]));
    }
}

proof fn lemma_groups_kind_count(d: FileDiff, gs: Seq<Seq<(ChangeKind, Option<usize>, Option<usize>, Seq<char>)>>, n: int)
    requires
        diff_of_groups(d, gs),
        0 <= n <= gs.len(),
    ensures
        hunks_kind_count(d.hunks@, DiffLineKind::Addition, n) == groups_count(gs, |k: ChangeKind| is_insert(k), n),
        hunks_kind_count(d.hunks@, DiffLineKind::Deletion, n) == groups_count(gs, |k: ChangeKind| is_delete(k), n),
    decreases n,
{
    if n > 0 {
        lemma_groups_kind_count(d, gs, n - 1);
        let hunk = d.hunks@[n - 1];
        assert(hunk_of_group(hunk, gs[n - 1]));
        lemma_kind_count_of_group(hunk, gs[n - 1], gs[n - 1].len() as int);
    }
}

/// The diff panel's unstaged totals agree with the diff: for a text diff
/// built from a line diff, the effective stats with nothing discarded are
/// the diff's own numbers of added and deleted lines.
pub proof fn law_undiscarded_stats_match_diff(d: FileDiff, gs: Seq<Seq<(ChangeKind, Option<usize>, Option<usize>, Seq<char>)>>)
    requires
        diff_of_groups(d, gs),
        forall|h: int| 0 <= h < d.hunks@.len() ==> (#[trigger] d.hunks@[h]).lines@.len() <= usize::MAX,
    ensures
        effective_additions(d.hunks@, Set::empty(), d.hunks@.len() as int) == d.additions,
        effective_deletions(d.hunks@, Set::empty(), d.hunks@.len() as int) == d.deletions,
{
    law_effective_stats_without_discards(d.hunks@);
    lemma_groups_kind_count(d, gs, gs.len() as int);
}

} // verus!
