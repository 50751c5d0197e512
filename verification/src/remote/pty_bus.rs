//! The input side of a tab's PTY, shared by the local terminal view and
//! remote clients, and the size the PTY was last given.
use vstd::prelude::*;

verus! {

/// The input side of a PTY: keystrokes and resizes. Implementations bridge
/// to whatever writer the tab uses (the sandbox's shell writer, or a host
/// PTY master).
pub trait PtyInput {
    fn send_input(&self, data: &[u8]) -> Result<(), String>;

    /// Resizes, taking (rows, cols) as PTY writers do.
    fn resize(&self, rows: u16, cols: u16) -> Result<(), String>;
}

/// Columns of a PTY before its first resize.
pub const DEFAULT_COLS: u16 = 80;

/// Rows of a PTY before its first resize.
pub const DEFAULT_ROWS: u16 = 24;

/// The (cols, rows) a new bus reports until it is resized.
pub fn initial_dimensions() -> (r: (u16, u16))
    ensures
        r == (DEFAULT_COLS, DEFAULT_ROWS),
{
    (DEFAULT_COLS, DEFAULT_ROWS)
}

/// Resizes the PTY to `cols` × `rows` and records the new (cols, rows) so
/// that later attaches report it. The writer is told (rows, cols), once;
/// its answer is handed back, and a failure changes nothing else.
pub fn apply_resize<W: PtyInput + ?Sized>(writer: &W, dims: &mut (u16, u16), cols: u16, rows: u16) -> (r: Result<(), String>)
    ensures
        *final(dims) == (cols, rows),
        call_ensures(W::resize, (writer, rows, cols), r),
{
    let r = writer.resize(rows, cols);
    *dims = (cols, rows);
    r
}

/// The dimensions to report, given what the shared cell held (`None` when
/// it could not be read): the default size then.
pub fn current_dimensions(stored: Option<(u16, u16)>) -> (r: (u16, u16))
    ensures
        r == match stored {
            Some(d) => d,
            None => (DEFAULT_COLS, DEFAULT_ROWS),
        },
{
    match stored {
        Some(d) => d,
        None => initial_dimensions(),
    }
}

} // verus!
