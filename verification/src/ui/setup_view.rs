//! The agent setup screen: the glyph of each step, and the error bar's
//! message and log link.
use vstd::prelude::*;

use crate::text::{
    append_range, append_str, chars_of, find_seq, first_occurrence, string_from_chars, trim_bounds,
    trim_spaces,
};

verus! {

/// Progress of one setup step.
#[derive(Clone, Copy, PartialEq, Eq, Structural, Debug)]
pub enum StepStatus {
    Pending,
    Active,
    Done,
    Failed,
}

/// The glyph drawn before a step: ✓ done, ● active, ○ pending, ✗ failed.
pub open spec fn indicator_text(status: StepStatus) -> Seq<char> {
    match status {
        StepStatus::Done => "\u{2713}"@,
        StepStatus::Active => "\u{25CF}"@,
        StepStatus::Pending => "\u{25CB}"@,
        StepStatus::Failed => "\u{2717}"@,
    }
}

pub fn step_indicator(status: StepStatus) -> (r: &'static str)
    ensures
        r@ == indicator_text(status),
{
    match status {
        StepStatus::Done => "\u{2713}",
        StepStatus::Active => "\u{25CF}",
        StepStatus::Pending => "\u{25CB}",
        StepStatus::Failed => "\u{2717}",
    }
}

/// `s` with every trailing repetition of `p` removed, like
/// `str::trim_end_matches` with a string pattern.
pub open spec fn trim_end_repeated(s: Seq<char>, p: Seq<char>) -> Seq<char>
    decreases s.len(),
{
    if p.len() > 0 && p.len() <= s.len() && s.skip(s.len() - p.len()) == p {
        trim_end_repeated(s.take(s.len() - p.len()), p)
    } else {
        s
    }
}

/// The error bar's text: the message before `logs saved to ` (without the
/// trailing ` — `), and the log path after it, trimmed; the whole error
/// and no path when the marker is absent.
pub open spec fn setup_error_parts(err: Seq<char>) -> (Seq<char>, Option<Seq<char>>) {
    match first_occurrence(err, "logs saved to "@) {
        Some(i) => (
            trim_end_repeated(err.take(i), " \u{2014} "@),
            Some(trim_spaces(err.skip(i + "logs saved to "@.len()))),
        ),
        None => (err, None),
    }
}

/// Length of `s[..n]` once trailing repetitions of `p` are removed.
fn trimmed_end_repeated_len(s: &Vec<char>, n: usize, p: &Vec<char>) -> (r: usize)
    requires
        n <= s@.len(),
    ensures
        r <= n,
        s@.take(r as int) == trim_end_repeated(s@.take(n as int), p@),
{
    let m = p.len();
    let mut len = n;
    while m > 0 && m <= len
        invariant
            len <= n <= s@.len(),
            m == p@.len(),
            trim_end_repeated(s@.take(len as int), p@) == trim_end_repeated(s@.take(n as int), p@),
        decreases len,
    {
        let start = len - m;
        let mut same = true;
        let mut k: usize = 0;
        while k < m
            invariant
                k <= m,
                start + m == len <= s@.len(),
                m == p@.len(),
                same == forall|j: int| 0 <= j < k ==> s@[start + j] == p@[j],
            decreases m - k,
        {
            if s[start + k] != p[k] {
                same = false;
            }
            k += 1;
        }
        let ghost t = s@.take(len as int);
        proof {
            if same {
                assert(t.skip(t.len() - m) =~= p@) by {
                    assert forall|j: int| 0 <= j < m implies t.skip(t.len() - m)[j] == p@[j] by {
                        assert(t.skip(t.len() - m)[j] == s@[start + j]);
                    }
                }
            } else {
                let j = choose|j: int| 0 <= j < m && s@[start + j] != p@[j];
                assert(t.skip(t.len() - m)[j] == s@[start + j]);
            }
        }
        if !same {
            return len;
        }
        proof {
            assert(t.take(t.len() - m) == s@.take(start as int));
        }
        len = start;
    }
    len
}

/// Splits a setup error into the message and the log path it names.
pub fn split_setup_error(err: &str) -> (r: (String, Option<String>))
    ensures
        r.0@ == setup_error_parts(err@).0,
        match setup_error_parts(err@).1 {
            Some(path) => r.1 matches Some(p) && p@ == path,
            None => r.1 is None,
        },
{
    let s = chars_of(err);
    let marker = chars_of("logs saved to ");
    match find_seq(&s, &marker) {
        Some(idx) => {
            let dash = chars_of(" \u{2014} ");
            let msg_len = trimmed_end_repeated_len(&s, idx, &dash);
            let mut msg: Vec<char> = Vec::new();
            append_range(&mut msg, &s, 0, msg_len);
            let n = s.len();
            proof {
                assert(idx + marker@.len() <= n);
            }
            let after_start = idx + marker.len();
            let mut after: Vec<char> = Vec::new();
            append_range(&mut after, &s, after_start, n);
            let (from, to) = trim_bounds(&after);
            let mut path: Vec<char> = Vec::new();
            append_range(&mut path, &after, from, to);
            proof {
                assert(msg@ == s@.take(msg_len as int));
                assert(after@ == s@.skip(after_start as int));
            }
            (string_from_chars(&msg), Some(string_from_chars(&path)))
        },
        None => {
            let mut all: Vec<char> = Vec::new();
            append_str(&mut all, err);
            (string_from_chars(&all), None)
        },
    }
}

/// The link under the error bar.
pub fn logs_link_label(path: &str) -> (r: String)
    ensures
        r@ == "View logs: "@ + path@,
{
    let mut out: Vec<char> = Vec::new();
    append_str(&mut out, "View logs: ");
    append_str(&mut out, path);
    string_from_chars(&out)
}

} // verus!
