//! Labels of the remote-control settings tab: shortened device ids and
//! how long ago a device was paired.
use vstd::prelude::*;
use vstd::string::StringSliceAdditionalSpecFns;
use vstd::utf8::{decode_utf8, encode_utf8_decode_utf8, is_char_boundary};

use crate::text::{append_str, chars_of, decimal, push_decimal, string_from_chars};

verus! {

/// A device id as shown: ids of at most 16 bytes whole, longer ones as
/// their first 8 bytes, `…`, and their last 4.
pub open spec fn short_id_text(id: &str) -> Seq<char> {
    let b = id.spec_bytes();
    if b.len() <= 16 {
        id@
    } else {
        decode_utf8(b.take(8)) + seq!['\u{2026}'] + decode_utf8(b.skip(b.len() - 4))
    }
}

/// Shortens a device id for display. Cutting inside a character panics,
/// so the cut points of a long id must be character boundaries.
pub fn short_id(id: &str) -> (r: String)
    requires
        id.spec_bytes().len() > 16 ==> is_char_boundary(id.spec_bytes(), 8)
            && is_char_boundary(id.spec_bytes(), id.spec_bytes().len() - 4),
    ensures
        r@ == short_id_text(id),
{
    let n = id.as_bytes().len();
    let mut out: Vec<char> = Vec::new();
    if n <= 16 {
        append_str(&mut out, id);
        return string_from_chars(&out);
    }
    let (head, _) = id.split_at(8);
    let (_, tail) = id.split_at(n - 4);
    append_str(&mut out, head);
    out.push('\u{2026}');
    append_str(&mut out, tail);
    proof {
        encode_utf8_decode_utf8(head@);
        encode_utf8_decode_utf8(tail@);
        assert(head.spec_bytes() == id.spec_bytes().take(8));
        assert(tail.spec_bytes() == id.spec_bytes().skip(n - 4));
    }
    string_from_chars(&out)
}

/// How long ago something was paired, `delta` seconds ago.
pub open spec fn paired_ago_text(delta: nat) -> Seq<char> {
    if delta < 60 {
        "paired just now"@
    } else if delta < 3600 {
        "paired "@ + decimal(delta / 60) + " min ago"@
    } else if delta < 86400 {
        "paired "@ + decimal(delta / 3600) + " hr ago"@
    } else {
        "paired "@ + decimal(delta / 86400) + " days ago"@
    }
}

/// `n` whole units of `secs` seconds fit in `delta`, and at least one.
pub open spec fn whole_units(delta: nat, n: nat, secs: nat) -> bool {
    &&& n >= 1
    &&& n * secs <= delta
    &&& delta < (n + 1) * secs
}

/// The pairing label counts whole elapsed units, never zero of them: under
/// a minute it says "just now"; otherwise it gives the number of whole
/// minutes (under an hour), whole hours (under a day) or whole days that
/// have passed.
pub proof fn law_paired_ago_counts_whole_units(delta: nat)
    ensures
        delta < 60 ==> paired_ago_text(delta) == "paired just now"@,
        60 <= delta < 3600 ==> exists|n: nat|
            #[trigger] whole_units(delta, n, 60) && n < 60 && paired_ago_text(delta) == "paired "@ + decimal(n)
                + " min ago"@,
        3600 <= delta < 86400 ==> exists|n: nat|
            #[trigger] whole_units(delta, n, 3600) && n < 24 && paired_ago_text(delta) == "paired "@ + decimal(n)
                + " hr ago"@,
        86400 <= delta ==> exists|n: nat|
            #[trigger] whole_units(delta, n, 86400) && paired_ago_text(delta) == "paired "@ + decimal(n)
                + " days ago"@,
{
    if 60 <= delta < 3600 {
        let n = delta / 60;
        assert(whole_units(delta, n, 60));
    }
    if 3600 <= delta < 86400 {
        let n = delta / 3600;
        assert(whole_units(delta, n, 3600));
    }
    if 86400 <= delta {
        let n = delta / 86400;
        assert(whole_units(delta, n, 86400));
    }
}

/// The "paired … ago" label at time `now` (seconds since the epoch) for a
/// device paired at `created_at_secs`; a pairing time in the future counts
/// as just now.
pub fn relative_time(now: u64, created_at_secs: u64) -> (r: String)
    ensures
        r@ == paired_ago_text(if now >= created_at_secs { (now - created_at_secs) as nat } else { 0 }),
{
    let delta = now.saturating_sub(created_at_secs);
    let mut out: Vec<char> = Vec::new();
    if delta < 60 {
        append_str(&mut out, "paired just now");
    } else if delta < 3600 {
        append_str(&mut out, "paired ");
        push_decimal(&mut out, delta / 60);
        append_str(&mut out, " min ago");
    } else if delta < 86400 {
        append_str(&mut out, "paired ");
        push_decimal(&mut out, delta / 3600);
        append_str(&mut out, " hr ago");
    } else {
        append_str(&mut out, "paired ");
        push_decimal(&mut out, delta / 86400);
        append_str(&mut out, " days ago");
    }
    string_from_chars(&out)
}

/// What the user does in the host-id rotation row: the idle row offers
/// `Rotate host id`; once asked, the row shows a warning with `Cancel` and
/// a confirming `Rotate`.
#[derive(Clone, Copy, PartialEq, Eq, Structural, Debug)]
pub enum RotateEvent {
    /// `Rotate host id` in the idle row: asks for confirmation.
    Rotate,
    /// `Cancel` in the confirmation row.
    Cancel,
    /// `Rotate` in the confirmation row: the irreversible rotation.
    Confirm,
}

/// The rotation row after an event, from whether it was confirming: the
/// new confirming state, and whether the rotation fires. A button that the
/// current row does not show changes nothing.
pub open spec fn rotate_transition(confirming: bool, ev: RotateEvent) -> (bool, bool) {
    if !confirming {
        match ev {
            RotateEvent::Rotate => (true, false),
            _ => (false, false),
        }
    } else {
        match ev {
            RotateEvent::Cancel => (false, false),
            RotateEvent::Confirm => (true, true),
            RotateEvent::Rotate => (true, false),
        }
    }
}

/// One step of the rotation row: the new confirming state, and whether to
/// fire the rotation.
pub fn rotate_step(confirming: bool, ev: RotateEvent) -> (r: (bool, bool))
    ensures
        r == rotate_transition(confirming, ev),
{
    if !confirming {
        match ev {
            RotateEvent::Rotate => (true, false),
            _ => (false, false),
        }
    } else {
        match ev {
            RotateEvent::Cancel => (false, false),
            RotateEvent::Confirm => (true, true),
            RotateEvent::Rotate => (true, false),
        }
    }
}

/// The rotation fires only from the confirmation row: from the idle row no
/// single event fires it, and it takes the confirming `Rotate` to fire.
pub proof fn law_rotation_needs_confirmation(confirming: bool, ev: RotateEvent)
    ensures
        !confirming ==> !rotate_transition(confirming, ev).1,
        rotate_transition(confirming, ev).1 <==> (confirming && ev == RotateEvent::Confirm),
{
}

/// The host id as the settings show it: the id, or a dash while the host
/// has none yet.
pub open spec fn host_id_text(host_id: Option<Seq<char>>) -> Seq<char> {
    match host_id {
        Some(h) => h,
        None => "\u{2014}"@,
    }
}

/// What the host-id block shows and offers: the id's text, and whether the
/// copy button is there (only when there is an id to copy).
pub fn host_id_display(host_id: Option<&str>) -> (r: (String, bool))
    ensures
        r.0@ == host_id_text(
            match host_id {
                Some(h) => Some(h@),
                None => None,
            },
        ),
        r.1 == host_id is Some,
{
    match host_id {
        Some(h) => (String::from_str(h), true),
        None => (String::from_str("\u{2014}"), false),
    }
}

} // verus!
