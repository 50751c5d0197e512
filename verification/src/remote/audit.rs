//! Bookkeeping of the append-only audit log of remote-control RPCs.
//!
//! Each RPC the host receives is one JSON line. The active file rolls over
//! once it reaches [`ROTATE_BYTES`], keeping [`MAX_FILES`] backups
//! (`remote-audit.log.1` … `remote-audit.log.5`). This module decides when
//! to rotate and which renames a rotation makes; the file system work is
//! the caller's.
use vstd::prelude::*;

use crate::text::{append_str, decimal, lemma_decimal_injective, push_decimal, string_from_chars};

verus! {

/// The active log rolls over at this size in bytes (5 MB).
pub const ROTATE_BYTES: u64 = 5 * 1024 * 1024;

/// Number of rotated backups kept beside the active log.
pub const MAX_FILES: usize = 5;

/// Path of backup number `n` of the log at `base`: `base.n`.
pub open spec fn sidecar_text(base: Seq<char>, n: nat) -> Seq<char> {
    base + seq!['.'] + decimal(n)
}

/// Path of backup number `n` of the log at `base`.
pub fn sidecar_path(base: &str, n: usize) -> (r: String)
    ensures
        r@ == sidecar_text(base@, n as nat),
{
    let mut out: Vec<char> = Vec::new();
    append_str(&mut out, base);
    out.push('.');
    push_decimal(&mut out, n as u64);
    string_from_chars(&out)
}

/// The byte count after writing a line of `line_len` bytes, and whether the
/// log must now rotate.
pub fn account_write(bytes_written: u64, line_len: u64) -> (r: (u64, bool))
    requires
        bytes_written + line_len <= u64::MAX,
    ensures
        r.0 == bytes_written + line_len,
        r.1 == (r.0 >= ROTATE_BYTES),
{
    let total = bytes_written + line_len;
    (total, total >= ROTATE_BYTES)
}

/// The renames of one rotation, in order: `.4 → .5`, `.3 → .4`, `.2 → .3`,
/// `.1 → .2`, then the active log to `.1`. The oldest backup is
/// overwritten by the first move.
pub open spec fn rotation_plan(base: Seq<char>) -> Seq<(Seq<char>, Seq<char>)> {
    Seq::new(
        (MAX_FILES - 1) as nat,
        |k: int| (sidecar_text(base, (MAX_FILES - 1 - k) as nat), sidecar_text(base, (MAX_FILES - k) as nat)),
    ).push((base, sidecar_text(base, 1)))
}

/// The renames that rotate the log at `base`, as (from, to) pairs.
pub fn rotation_moves(base: &str) -> (r: Vec<(String, String)>)
    ensures
        r@.len() == rotation_plan(base@).len(),
        forall|k: int| 0 <= k < r@.len() ==> (#[trigger] r@[k].0@, r@[k].1@) == rotation_plan(base@)[k],
{
    let mut r: Vec<(String, String)> = Vec::new();
    let mut i: usize = MAX_FILES - 1;
    while i >= 1
        invariant
            0 <= i < MAX_FILES,
            r@.len() == MAX_FILES - 1 - i,
            forall|k: int| 0 <= k < r@.len() ==> (#[trigger] r@[k].0@, r@[k].1@) == rotation_plan(base@)[k],
        decreases i,
    {
        let from = sidecar_path(base, i);
        let to = sidecar_path(base, i + 1);
        r.push((from, to));
        i -= 1;
    }
    let mut active: Vec<char> = Vec::new();
    append_str(&mut active, base);
    r.push((string_from_chars(&active), sidecar_path(base, 1)));
    r
}

proof fn lemma_sidecar_injective(base: Seq<char>, a: nat, b: nat)
    requires
        sidecar_text(base, a) == sidecar_text(base, b),
    ensures
        a == b,
{
    let x = sidecar_text(base, a);
    let y = sidecar_text(base, b);
    assert(decimal(a) == x.skip(base.len() + 1 as int));
    assert(decimal(b) == y.skip(base.len() + 1 as int));
    lemma_decimal_injective(a, b);
}

proof fn lemma_sidecar_not_base(base: Seq<char>, n: nat)
    ensures
        sidecar_text(base, n) != base,
{
    assert(sidecar_text(base, n).len() > base.len());
}

/// A rotation never overwrites a file before moving it: no rename's
/// target is the source of a later rename, and no two renames share a
/// target.
pub proof fn law_rotation_moves_before_overwrite(base: Seq<char>)
    ensures
        forall|j: int, k: int|
            0 <= j < k < rotation_plan(base).len() ==> #[trigger] rotation_plan(base)[j].1
                != #[trigger] rotation_plan(base)[k].0,
        forall|j: int, k: int|
            0 <= j < k < rotation_plan(base).len() ==> #[trigger] rotation_plan(base)[j].1
                != #[trigger] rotation_plan(base)[k].1,
{
    let p = rotation_plan(base);
    let n = (MAX_FILES - 1) as int;
    assert forall|j: int, k: int| 0 <= j < k < p.len() implies #[trigger] p[j].1 != #[trigger] p[k].0 by {
        if p[j].1 == p[k].0 {
            if k < n {
                lemma_sidecar_injective(base, (MAX_FILES - j) as nat, (MAX_FILES - 1 - k) as nat);
            } else {
                lemma_sidecar_not_base(base, (MAX_FILES - j) as nat);
            }
        }
    }
    assert forall|j: int, k: int| 0 <= j < k < p.len() implies #[trigger] p[j].1 != #[trigger] p[k].1 by {
        if p[j].1 == p[k].1 {
            if k < n {
                lemma_sidecar_injective(base, (MAX_FILES - j) as nat, (MAX_FILES - k) as nat);
            } else {
                lemma_sidecar_injective(base, (MAX_FILES - j) as nat, 1);
            }
        }
    }
}

} // verus!
