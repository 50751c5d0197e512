//! Where the review panel reads and writes a workspace file: the sandbox
//! sees the workspace at `/workspace`, the host at its mount path. Writes
//! refuse paths that climb out of the workspace or reach into `.git`.
use vstd::prelude::*;

use crate::text::{
    append_str, chars_of, contains_seq, find_seq, first_occurrence, has_prefix, starts_with,
    string_from_chars,
};
use crate::text::str_eq;

verus! {

/// `dir/rel`.
pub fn join_path(dir: &str, rel_path: &str) -> (r: String)
    ensures
        r@ == dir@ + seq!['/'] + rel_path@,
{
    let mut out: Vec<char> = Vec::new();
    append_str(&mut out, dir);
    out.push('/');
    append_str(&mut out, rel_path);
    string_from_chars(&out)
}

/// A write to `rel_path` is refused: it holds `..`, or it is `.git` or
/// lies under it.
pub open spec fn write_refusal(rel_path: Seq<char>) -> Option<Seq<char>> {
    if contains_seq(rel_path, ".."@) {
        Some("path contains '..'"@)
    } else if has_prefix(rel_path, ".git/"@) || rel_path == ".git"@ {
        Some("refusing to write to .git"@)
    } else {
        None
    }
}

/// The (host path, sandbox path) a write of `rel_path` goes to, or the
/// reason it is refused.
pub fn write_targets(rel_path: &str, host_mount_path: &str) -> (r: Result<(String, String), String>)
    ensures
        match write_refusal(rel_path@) {
            Some(reason) => r matches Err(e) && e@ == reason,
            None => r matches Ok((host, sandbox)) && host@ == host_mount_path@ + seq!['/'] + rel_path@
                && sandbox@ == "/workspace"@ + seq!['/'] + rel_path@,
        },
{
    let rel = chars_of(rel_path);
    let dots = chars_of("..");
    let found = find_seq(&rel, &dots);
    proof {
        reveal(first_occurrence);
    }
    if found.is_some() {
        let mut e: Vec<char> = Vec::new();
        append_str(&mut e, "path contains '..'");
        return Err(string_from_chars(&e));
    }
    let git_dir = chars_of(".git/");
    if starts_with(&rel, &git_dir) || str_eq(rel_path, ".git") {
        let mut e: Vec<char> = Vec::new();
        append_str(&mut e, "refusing to write to .git");
        return Err(string_from_chars(&e));
    }
    Ok((join_path(host_mount_path, rel_path), join_path("/workspace", rel_path)))
}

} // verus!
