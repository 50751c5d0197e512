//! Terminal-emulator decisions: the size handed to the emulator, the
//! cursor shape to draw, and the normalization of readline's multi-line
//! paste redisplay before PTY output reaches the parser.
use vstd::prelude::*;

verus! {

/// Dimensions given to the emulator when it is created or resized.
pub struct TermDimensions {
    pub columns: usize,
    pub screen_lines: usize,
}

impl TermDimensions {
    pub fn new(columns: usize, screen_lines: usize) -> (r: Self)
        ensures
            r.columns == columns,
            r.screen_lines == screen_lines,
    {
        TermDimensions { columns, screen_lines }
    }

    /// Lines including history; no history is kept at creation.
    pub fn total_lines(&self) -> (r: usize)
        ensures
            r == self.screen_lines,
    {
        self.screen_lines
    }

    pub fn screen_lines(&self) -> (r: usize)
        ensures
            r == self.screen_lines,
    {
        self.screen_lines
    }

    pub fn columns(&self) -> (r: usize)
        ensures
            r == self.columns,
    {
        self.columns
    }

    /// Index of the last column (0 for a zero-width terminal).
    pub fn last_column(&self) -> (r: usize)
        ensures
            r == if self.columns == 0 {
                0
            } else {
                self.columns - 1
            },
    {
        self.columns.saturating_sub(1)
    }
}

/// Cursor shape for rendering.
#[derive(Clone, Copy, PartialEq, Eq, Structural, Debug)]
pub enum CursorShape {
    Block,
    Bar,
    Underline,
    Hollow,
}

/// The cursor shapes the emulator reports.
#[derive(Clone, Copy, PartialEq, Eq, Structural, Debug)]
pub enum EmulatorCursorShape {
    Block,
    Underline,
    Beam,
    HollowBlock,
    Hidden,
}

/// The shape to draw for the emulator's cursor shape; a hidden cursor is
/// drawn as a block, and hiding is the renderer's concern.
pub open spec fn drawn_shape(shape: EmulatorCursorShape) -> CursorShape {
    match shape {
        EmulatorCursorShape::Block => CursorShape::Block,
        EmulatorCursorShape::Underline => CursorShape::Underline,
        EmulatorCursorShape::Beam => CursorShape::Bar,
        EmulatorCursorShape::HollowBlock => CursorShape::Hollow,
        EmulatorCursorShape::Hidden => CursorShape::Block,
    }
}

pub fn cursor_shape(shape: EmulatorCursorShape) -> (r: CursorShape)
    ensures
        r == drawn_shape(shape),
{
    match shape {
        EmulatorCursorShape::Block => CursorShape::Block,
        EmulatorCursorShape::Underline => CursorShape::Underline,
        EmulatorCursorShape::Beam => CursorShape::Bar,
        EmulatorCursorShape::HollowBlock => CursorShape::Hollow,
        EmulatorCursorShape::Hidden => CursorShape::Block,
    }
}

/// Mouse events go to the program when it asked for clicks, motion or
/// drags, unless Shift is held (Shift keeps selection local).
pub fn mouse_mode(reports_mouse: bool, shift: bool) -> (r: bool)
    ensures
        r == (reports_mouse && !shift),
{
    reports_mouse && !shift
}

/// Readline's paste redisplay: `ESC[27m CR ESC[7m` (inverse video off,
/// bare carriage return, inverse video on).
pub open spec fn paste_redisplay() -> Seq<u8> {
    seq![0x1bu8, 0x5bu8, 0x32u8, 0x37u8, 0x6du8, 0x0du8, 0x1bu8, 0x5bu8, 0x37u8, 0x6du8]
}

/// The same with a line feed after the carriage return.
pub open spec fn paste_redisplay_fixed() -> Seq<u8> {
    seq![0x1bu8, 0x5bu8, 0x32u8, 0x37u8, 0x6du8, 0x0du8, 0x0au8, 0x1bu8, 0x5bu8, 0x37u8, 0x6du8]
}

/// `s` with every occurrence of the redisplay pattern, scanning from the
/// front, given its missing line feed.
pub open spec fn normalized_output(s: Seq<u8>) -> Seq<u8>
    decreases s.len(),
{
    if s.len() == 0 {
        s
    } else if s.len() >= 10 && s.take(10) == paste_redisplay() {
        paste_redisplay_fixed() + normalized_output(s.skip(10))
    } else {
        seq![s[0]] + normalized_output(s.skip(1))
    }
}

fn redisplay_at(bytes: &[u8], i: usize) -> (r: bool)
    requires
        i <= bytes@.len(),
    ensures
        r == (i + 10 <= bytes@.len() && bytes@.subrange(i as int, i + 10) == paste_redisplay()),
{
    let n = bytes.len();
    if n - i < 10 {
        return false;
    }
    let r = bytes[i] == 0x1b && bytes[i + 1] == 0x5b && bytes[i + 2] == 0x32 && bytes[i + 3] == 0x37
        && bytes[i + 4] == 0x6d && bytes[i + 5] == 0x0d && bytes[i + 6] == 0x1b && bytes[i + 7] == 0x5b
        && bytes[i + 8] == 0x37 && bytes[i + 9] == 0x6d;
    proof {
        let w = bytes@.subrange(i as int, i + 10);
        if r {
            assert(w =~= paste_redisplay());
        }
        if w == paste_redisplay() {
            assert(w[0] == bytes@[i as int]);
            assert(w[9] == bytes@[i + 9]);
            assert(w[1] == 0x5b && w[2] == 0x32 && w[3] == 0x37 && w[4] == 0x6d);
            assert(w[5] == 0x0d && w[6] == 0x1b && w[7] == 0x5b && w[8] == 0x37);
        }
    }
    r
}

/// Normalizes PTY output before it reaches the terminal parser: readline
/// redisplays a multi-line paste with inverse video and a bare CR, so
/// every line lands on the same row; a line feed after that CR makes each
/// line advance. Output without the pattern passes unchanged.
pub fn normalize_paste_redisplay(bytes: &[u8]) -> (r: Vec<u8>)
    ensures
        r@ == normalized_output(bytes@),
{
    let mut out: Vec<u8> = Vec::new();
    let mut i: usize = 0;
    proof {
        assert(bytes@.skip(0) == bytes@);
    }
    while i < bytes.len()
        invariant
            i <= bytes@.len(),
            out@ + normalized_output(bytes@.skip(i as int)) == normalized_output(bytes@),
        decreases bytes@.len() - i,
    {
        let ghost rest = bytes@.skip(i as int);
        if redisplay_at(bytes, i) {
            proof {
                assert(rest.take(10) == bytes@.subrange(i as int, i + 10));
                assert(rest.skip(10) == bytes@.skip(i + 10));
            }
            let ghost before = out@;
            out.push(0x1b);
            out.push(0x5b);
            out.push(0x32);
            out.push(0x37);
            out.push(0x6d);
            out.push(0x0d);
            out.push(0x0a);
            out.push(0x1b);
            out.push(0x5b);
            out.push(0x37);
            out.push(0x6d);
            proof {
                assert(out@ == before + paste_redisplay_fixed());
            }
            i += 10;
        } else {
            proof {
                if rest.len() >= 10 {
                    assert(rest.take(10) == bytes@.subrange(i as int, i + 10));
                }
                assert(rest.skip(1) == bytes@.skip(i + 1));
                assert(rest[0] == bytes@[i as int]);
            }
            let ghost before = out@;
            out.push(bytes[i]);
            proof {
                assert(out@ == before + seq![bytes@[i as int]]);
            }
            i += 1;
        }
    }
    proof {
        assert(bytes@.skip(bytes@.len() as int) == Seq::<u8>::empty());
    }
    out
}

/// `s` holds the redisplay pattern somewhere.
pub open spec fn has_redisplay(s: Seq<u8>) -> bool {
    exists|i: int| 0 <= i && i + 10 <= s.len() && #[trigger] s.subrange(i, i + 10) == paste_redisplay()
}

/// Output without the redisplay pattern passes through unchanged.
pub proof fn law_normalize_without_pattern(s: Seq<u8>)
    requires
        !has_redisplay(s),
    ensures
        normalized_output(s) == s,
    decreases s.len(),
{
    if s.len() > 0 {
        if s.len() >= 10 {
            let z: int = 0;
            assert(s.take(10) == s.subrange(z, z + 10));
        }
        let t = s.skip(1);
        assert forall|i: int| 0 <= i && i + 10 <= t.len() implies #[trigger] t.subrange(i, i + 10) != paste_redisplay() by {
            let j = i + 1;
            assert(t.subrange(i, i + 10) == s.subrange(j, j + 10));
        }
        law_normalize_without_pattern(t);
        assert(seq![s[0]] + t == s);
    }
}

/// The first byte of `normalized_output(t)`, when there is one, is `t`'s
/// first byte; when `t` starts with the pattern, the rest comes from the
/// fixed form.
proof fn lemma_normalized_head(t: Seq<u8>)
    requires
        t.len() > 0,
    ensures
        t.len() >= 10 && t.take(10) == paste_redisplay() ==> normalized_output(t) == paste_redisplay_fixed()
            + normalized_output(t.skip(10)),
        !(t.len() >= 10 && t.take(10) == paste_redisplay()) ==> normalized_output(t) == seq![t[0]]
            + normalized_output(t.skip(1)),
{
}

/// Where the output of `t` starts with `q`, and `q` starts with a byte
/// that the fixed form cannot produce there, `t` starts with that byte.
proof fn lemma_output_prefix_step(t: Seq<u8>, q: Seq<u8>)
    requires
        q.len() > 0,
        normalized_output(t).len() >= q.len(),
        normalized_output(t).take(q.len() as int) == q,
        q[0] != 0x1bu8 || (q.len() >= 3 && q[2] != 0x32u8) || (q.len() >= 7 && q[6] != 0x0au8),
    ensures
        t.len() > 0,
        t[0] == q[0],
        normalized_output(t.skip(1)).len() >= q.len() - 1,
        normalized_output(t.skip(1)).take(q.len() - 1) == q.skip(1),
{
    if t.len() == 0 {
        assert(normalized_output(t).len() == 0);
    }
    lemma_normalized_head(t);
    let n = normalized_output(t);
    if t.len() >= 10 && t.take(10) == paste_redisplay() {
        assert(n[0] == 0x1bu8 && n[2] == 0x32u8 && n[6] == 0x0au8);
        assert(n[0] == q[0]);
        if q.len() >= 3 {
            assert(n[2] == q[2]);
        }
        if q.len() >= 7 {
            assert(n[6] == q[6]);
        }
    } else {
        assert(n[0] == q[0]);
        assert(normalized_output(t.skip(1)).take(q.len() - 1) =~= q.skip(1)) by {
            assert forall|i: int| 0 <= i < q.len() - 1 implies normalized_output(t.skip(1))[i] == q.skip(1)[i] by {
                assert(n[i + 1] == q[i + 1]);
            }
        }
    }
}

proof fn lemma_output_prefix_from(t: Seq<u8>, k: int)
    requires
        0 <= k <= 10,
        t.len() >= k,
        forall|i: int| 0 <= i < k ==> t[i] == paste_redisplay()[i],
        normalized_output(t.skip(k)).len() >= 10 - k,
        normalized_output(t.skip(k)).take(10 - k) == paste_redisplay().skip(k),
    ensures
        t.len() >= 10,
        t.take(10) == paste_redisplay(),
    decreases 10 - k,
{
    let p = paste_redisplay();
    if k == 10 {
        assert(t.take(10) =~= p);
    } else {
        let u = t.skip(k);
        let q = p.skip(k);
        assert(q[0] == p[k]);
        assert(q.len() == 10 - k);
        assert(p[0] == 0x1bu8 && p[1] == 0x5bu8 && p[2] == 0x32u8 && p[3] == 0x37u8 && p[4] == 0x6du8);
        assert(p[5] == 0x0du8 && p[6] == 0x1bu8 && p[7] == 0x5bu8 && p[8] == 0x37u8 && p[9] == 0x6du8);
        assert(q[0] != 0x1bu8 || (q.len() >= 3 && q[2] != 0x32u8) || (q.len() >= 7 && q[6] != 0x0au8)) by {
            if k == 0 {
                assert(q[6] == p[6]);
            } else if k == 6 {
                assert(q[2] == p[8]);
            } else if k == 1 {
                assert(q[0] == p[1]);
            } else if k == 2 {
                assert(q[0] == p[2]);
            } else if k == 3 {
                assert(q[0] == p[3]);
            } else if k == 4 {
                assert(q[0] == p[4]);
            } else if k == 5 {
                assert(q[0] == p[5]);
            } else if k == 7 {
                assert(q[0] == p[7]);
            } else if k == 8 {
                assert(q[0] == p[8]);
            } else {
                assert(q[0] == p[9]);
            }
        }
        lemma_output_prefix_step(u, q);
        assert(u[0] == t[k]);
        assert(u.skip(1) == t.skip(k + 1));
        assert(q.skip(1) == p.skip(k + 1));
        lemma_output_prefix_from(t, k + 1);
    }
}

/// The output never starts with the pattern unless the input did.
proof fn lemma_output_starts_with_pattern(t: Seq<u8>)
    requires
        normalized_output(t).len() >= 10,
        normalized_output(t).take(10) == paste_redisplay(),
    ensures
        t.len() >= 10,
        t.take(10) == paste_redisplay(),
{
    assert(t.skip(0) == t);
    assert(paste_redisplay().skip(0) == paste_redisplay());
    lemma_output_prefix_from(t, 0);
}

proof fn lemma_fixed_has_no_pattern(x: Seq<u8>, i: int)
    requires
        0 <= i < 11,
        i + 10 <= 11 + x.len(),
    ensures
        (paste_redisplay_fixed() + x).subrange(i, i + 10) != paste_redisplay(),
{
    let w = (paste_redisplay_fixed() + x).subrange(i, i + 10);
    let f = paste_redisplay_fixed();
    if i == 0 {
        assert(w[6] == f[6]);
    } else if i == 7 {
        assert(w[2] == f[9]);
    } else {
        assert(w[0] == f[i]);
    }
}

/// Every paste redisplay gets its line feed: the output never holds the
/// bare pattern.
pub proof fn law_normalized_has_no_bare_redisplay(s: Seq<u8>)
    ensures
        !has_redisplay(normalized_output(s)),
    decreases s.len(),
{
    if s.len() > 0 {
        lemma_normalized_head(s);
        let o = normalized_output(s);
        if s.len() >= 10 && s.take(10) == paste_redisplay() {
            let x = normalized_output(s.skip(10));
            law_normalized_has_no_bare_redisplay(s.skip(10));
            assert forall|i: int| 0 <= i && i + 10 <= o.len() implies #[trigger] o.subrange(i, i + 10) != paste_redisplay() by {
                if i < 11 {
                    lemma_fixed_has_no_pattern(x, i);
                } else {
                    assert(o.subrange(i, i + 10) == x.subrange(i - 11, i - 11 + 10));
                }
            }
        } else {
            let x = normalized_output(s.skip(1));
            law_normalized_has_no_bare_redisplay(s.skip(1));
            assert forall|i: int| 0 <= i && i + 10 <= o.len() implies #[trigger] o.subrange(i, i + 10) != paste_redisplay() by {
                if i == 0 {
                    if o.subrange(0, 10) == paste_redisplay() {
                        assert(o.take(10) == o.subrange(0, 10));
                        lemma_output_starts_with_pattern(s);
                    }
                } else {
                    assert(o.subrange(i, i + 10) == x.subrange(i - 1, i - 1 + 10));
                }
            }
        }
    }
}

} // verus!
