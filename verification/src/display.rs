//! What is shown of an image: the display modes, what the keys do to them,
//! which source a mode draws from, and the row order of an exported image.

use crate::text::{ascii, digits_of, push_decimal, push_text, zero_padded};
use vstd::prelude::*;

verus! {

/// What the window shows.
#[derive(Debug, Copy, Clone, PartialEq, Eq, Structural)]
pub enum DisplayMode {
    /// The mean colour of each pixel.
    Default,
    /// The mean colour, passed through the denoiser.
    Denoise,
    /// How many bounces the paths of each pixel took.
    Depth,
    /// The colour of the first surface that each pixel sees.
    Albedo,
    /// The normal of the first surface that each pixel sees.
    Normal,
}

/// A key of the keyboard, as far as the display is concerned.
#[derive(Debug, Copy, Clone, PartialEq, Eq, Structural)]
pub enum Key {
    Key1,
    Key2,
    Key3,
    Key4,
    Key5,
    /// Exports the image.
    E,
    /// Switches the quick pass on and off.
    Grave,
    /// Any other key.
    Other,
}

/// What the display is in: its mode, and whether only the quick pass runs.
#[derive(Debug, Copy, Clone, PartialEq, Eq, Structural)]
pub struct DisplayState {
    pub mode: DisplayMode,
    pub quick_pass: bool,
}

/// What follows the release of a key.
#[derive(Debug, Copy, Clone, PartialEq, Eq, Structural)]
pub struct KeyOutcome {
    pub state: DisplayState,
    /// The image is to be exported, in the mode that held before the key.
    pub export: bool,
    /// The mode has changed, so the window is to be drawn anew.
    pub redraw: bool,
}

impl DisplayState {
    /// The state at start: the quick pass shows the albedo, a full render
    /// the image.
    pub open spec fn initial(quick_pass: bool) -> DisplayState {
        DisplayState {
            mode: if quick_pass {
                DisplayMode::Albedo
            } else {
                DisplayMode::Default
            },
            quick_pass,
        }
    }

    /// The state after `key` is released: the number keys choose a mode, and
    /// the grave key switches the quick pass and with it the mode.
    pub open spec fn after(self, key: Key) -> DisplayState {
        match key {
            Key::Key1 => DisplayState { mode: DisplayMode::Default, quick_pass: self.quick_pass },
            Key::Key2 => DisplayState { mode: DisplayMode::Denoise, quick_pass: self.quick_pass },
            Key::Key3 => DisplayState { mode: DisplayMode::Depth, quick_pass: self.quick_pass },
            Key::Key4 => DisplayState { mode: DisplayMode::Albedo, quick_pass: self.quick_pass },
            Key::Key5 => DisplayState { mode: DisplayMode::Normal, quick_pass: self.quick_pass },
            Key::Grave => DisplayState::initial(!self.quick_pass),
            _ => self,
        }
    }

    /// The state at start.
    pub fn new(quick_pass: bool) -> (s: DisplayState)
        ensures
            s == DisplayState::initial(quick_pass),
    {
        DisplayState {
            mode: if quick_pass {
                DisplayMode::Albedo
            } else {
                DisplayMode::Default
            },
            quick_pass,
        }
    }

    /// What follows the release of `key`.
    pub fn key_released(self, key: Key) -> (r: KeyOutcome)
        ensures
            r.state == self.after(key),
            r.export == (key == Key::E),
            r.redraw == (self.after(key).mode != self.mode),
    {
        let state = match key {
            Key::Key1 => DisplayState { mode: DisplayMode::Default, quick_pass: self.quick_pass },
            Key::Key2 => DisplayState { mode: DisplayMode::Denoise, quick_pass: self.quick_pass },
            Key::Key3 => DisplayState { mode: DisplayMode::Depth, quick_pass: self.quick_pass },
            Key::Key4 => DisplayState { mode: DisplayMode::Albedo, quick_pass: self.quick_pass },
            Key::Key5 => DisplayState { mode: DisplayMode::Normal, quick_pass: self.quick_pass },
            Key::Grave => DisplayState::new(!self.quick_pass),
            _ => self,
        };
        let export = match key {
            Key::E => true,
            _ => false,
        };
        KeyOutcome { state, export, redraw: state.mode != self.mode }
    }
}

/// What a mode draws from.
#[derive(Debug, Copy, Clone, PartialEq, Eq, Structural)]
pub enum Projection {
    /// Nothing: every pixel is black.
    Black,
    /// The depth sums, as shares of the largest.
    Depth,
    /// The mean colours.
    Colour,
    /// The mean colours, denoised.
    Denoised,
    /// The albedo buffer.
    Albedo,
    /// The normal buffer.
    Normal,
}

/// What `mode` draws from. Without a merged pass there is no colour and no
/// depth to show, and without its buffer no albedo and no normal.
pub open spec fn projection_of(
    mode: DisplayMode,
    sample_count: u32,
    has_albedo: bool,
    has_normal: bool,
) -> Projection {
    match mode {
        DisplayMode::Default => if sample_count == 0 {
            Projection::Black
        } else {
            Projection::Colour
        },
        DisplayMode::Denoise => if sample_count == 0 {
            Projection::Black
        } else {
            Projection::Denoised
        },
        DisplayMode::Depth => if sample_count == 0 {
            Projection::Black
        } else {
            Projection::Depth
        },
        DisplayMode::Albedo => if has_albedo {
            Projection::Albedo
        } else {
            Projection::Black
        },
        DisplayMode::Normal => if has_normal {
            Projection::Normal
        } else {
            Projection::Black
        },
    }
}

impl DisplayMode {
    /// What this mode draws from.
    pub fn projection(self, sample_count: u32, has_albedo: bool, has_normal: bool) -> (p:
        Projection)
        ensures
            p == projection_of(self, sample_count, has_albedo, has_normal),
    {
        match self {
            DisplayMode::Default => if sample_count == 0 {
                Projection::Black
            } else {
                Projection::Colour
            },
            DisplayMode::Denoise => if sample_count == 0 {
                Projection::Black
            } else {
                Projection::Denoised
            },
            DisplayMode::Depth => if sample_count == 0 {
                Projection::Black
            } else {
                Projection::Depth
            },
            DisplayMode::Albedo => if has_albedo {
                Projection::Albedo
            } else {
                Projection::Black
            },
            DisplayMode::Normal => if has_normal {
                Projection::Normal
            } else {
                Projection::Black
            },
        }
    }
}

/// `s` cut into rows of `row` bytes, the rows in reverse order. A last row
/// that is shorter comes first.
pub open spec fn flipped(s: Seq<u8>, row: int) -> Seq<u8>
    decreases s.len(),
{
    if row <= 0 || s.len() <= row {
        s
    } else {
        flipped(s.subrange(row, s.len() as int), row) + s.subrange(0, row)
    }
}

/// Flipping keeps the length.
pub proof fn lemma_flipped_len(s: Seq<u8>, row: int)
    ensures
        flipped(s, row).len() == s.len(),
    decreases s.len(),
{
    if row > 0 && s.len() > row {
        lemma_flipped_len(s.subrange(row, s.len() as int), row);
    }
}

/// The flip of `s` starts with its last row, which is row `k` and starts at
/// `at`, and goes on with the flip of what comes before.
pub proof fn lemma_flip_split(s: Seq<u8>, row: int, k: int, at: int)
    requires
        row > 0,
        k >= 0,
        at == k * row,
        at <= s.len(),
        s.len() - at <= row,
        at < s.len() || s.len() == 0,
    ensures
        flipped(s, row) == s.subrange(at, s.len() as int) + flipped(s.subrange(0, at), row),
    decreases s.len(),
{
    let n = s.len() as int;
    let last = s.subrange(at, n);
    let head = s.subrange(0, at);
    if k == 0 {
        assert(at == 0) by (nonlinear_arith)
            requires
                at == k * row,
                k == 0,
        ;
    } else {
        assert(at >= row && at - row == (k - 1) * row) by (nonlinear_arith)
            requires
                at == k * row,
                k >= 1,
                row > 0,
        ;
        let rest = s.subrange(row, n);
        let first = s.subrange(0, row);
        lemma_flip_split(rest, row, k - 1, at - row);
        let rest_head = rest.subrange(0, at - row);
        assert(flipped(head, row) == flipped(rest_head, row) + first) by {
            if head.len() > row {
                assert(head.subrange(row, head.len() as int) =~= rest_head);
            }
        }
        assert((last + flipped(rest_head, row)) + first =~= last + (flipped(rest_head, row)
            + first));
    }
}

/// In an image of `rows` whole rows, the byte at column `x` of row `y` moves
/// to column `x` of row `rows - 1 - y`.
pub proof fn lemma_flipped_index(s: Seq<u8>, row: int, rows: int, y: int, x: int)
    requires
        row > 0,
        s.len() == rows * row,
        0 <= y < rows,
        0 <= x < row,
    ensures
        0 <= (rows - 1 - y) * row + x < s.len(),
        0 <= y * row + x < s.len(),
        flipped(s, row).len() == s.len(),
        flipped(s, row)[(rows - 1 - y) * row + x] == s[y * row + x],
    decreases rows,
{
    lemma_flipped_len(s, row);
    assert(0 <= y * row + x < rows * row && 0 <= (rows - 1 - y) * row + x < rows * row) by (nonlinear_arith)
        requires
            0 <= y < rows,
            0 <= x < row,
    ;
    if rows == 1 {
        assert(s.len() == row) by (nonlinear_arith)
            requires
                s.len() == rows * row,
                rows == 1,
        ;
        assert(y * row + x == x && (rows - 1 - y) * row + x == x) by (nonlinear_arith)
            requires
                y == 0,
                rows == 1,
        ;
    } else {
        assert(s.len() == (rows - 1) * row + row && (rows - 1) * row >= row) by (nonlinear_arith)
            requires
                s.len() == rows * row,
                rows > 1,
                row > 0,
        ;
        let rest = s.subrange(row, s.len() as int);
        lemma_flipped_len(rest, row);
        if y == 0 {
            assert((rows - 1 - y) * row + x == rest.len() + x && y * row + x == x) by (nonlinear_arith)
                requires
                    y == 0,
                    rest.len() == (rows - 1) * row,
            ;
        } else {
            lemma_flipped_index(rest, row, rows - 1, y - 1, x);
            assert((y - 1) * row + x + row == y * row + x) by (nonlinear_arith);
        }
    }
}

/// The bytes of an image with its rows in reverse order, for export: rows of
/// `row` bytes, the last of them first.
pub fn flip_rows(bytes: &[u8], row: usize) -> (out: Vec<u8>)
    requires
        row > 0,
    ensures
        out@ == flipped(bytes@, row as int),
{
    let n = bytes.len();
    let mut out: Vec<u8> = Vec::new();
    if n == 0 {
        return out;
    }
    let mut k: usize = (n - 1) / row;
    proof {
        vstd::arithmetic::div_mod::lemma_fundamental_div_mod(n - 1, row as int);
        vstd::arithmetic::div_mod::lemma_mod_bound(n - 1, row as int);
        vstd::arithmetic::div_mod::lemma_div_pos_is_pos(n - 1, row as int);
    }
    let mut start: usize = k * row;
    let mut end: usize = n;
    proof {
        lemma_flip_split(bytes@, row as int, k as int, start as int);
        assert(out@ + bytes@.subrange(start as int, end as int) =~= bytes@.subrange(
            start as int,
            end as int,
        ));
    }
    loop
        invariant
            row > 0,
            start == k * row,
            start < end <= n == bytes@.len(),
            end - start <= row,
            flipped(bytes@, row as int) == out@ + bytes@.subrange(start as int, end as int)
                + flipped(bytes@.subrange(0, start as int), row as int),
        decreases k,
    {
        let ghost before = out@;
        let mut i: usize = start;
        while i < end
            invariant
                start <= i <= end <= n == bytes@.len(),
                out@ == before + bytes@.subrange(start as int, i as int),
            decreases end - i,
        {
            out.push(bytes[i]);
            i += 1;
        }
        if k == 0 {
            assert(start == 0) by (nonlinear_arith)
                requires
                    start == k * row,
                    k == 0,
            ;
            return out;
        }
        proof {
            assert((k - 1) * row == start - row && start >= row) by (nonlinear_arith)
                requires
                    start == k * row,
                    k >= 1,
                    row > 0,
            ;
            let head = bytes@.subrange(0, start as int);
            lemma_flip_split(head, row as int, k - 1, start - row);
            assert(head.subrange(start - row, start as int) =~= bytes@.subrange(
                start - row,
                start as int,
            ));
            assert(head.subrange(0, start - row) =~= bytes@.subrange(0, start - row));
            assert(out@ + bytes@.subrange(start - row, start as int) + flipped(
                bytes@.subrange(0, start - row),
                row as int,
            ) =~= out@ + (bytes@.subrange(start - row, start as int) + flipped(
                bytes@.subrange(0, start - row),
                row as int,
            )));
        }
        end = start;
        k = k - 1;
        start = start - row;
    }
}

/// The name of the file that an image exported at `seconds` after the epoch
/// goes to.
pub open spec fn export_name_of(seconds: u64) -> Seq<u8> {
    ascii("./export/raytrace_") + digits_of(seconds as nat) + ascii(".png")
}

/// The name of the file that frame `frame` of an animation goes to: the
/// number has five digits at least.
pub open spec fn frame_name_of(frame: u32) -> Seq<u8> {
    ascii("animation/frame_") + zero_padded(digits_of(frame as nat), 5) + ascii(".png")
}

/// The name of the file that an image exported at `seconds` after the epoch
/// goes to.
pub fn export_name(seconds: u64) -> (name: Vec<u8>)
    ensures
        name@ == export_name_of(seconds),
{
    proof {
        reveal_strlit("./export/raytrace_");
        reveal_strlit(".png");
    }
    let mut name: Vec<u8> = Vec::new();
    push_text(&mut name, "./export/raytrace_");
    push_decimal(&mut name, seconds, 0);
    push_text(&mut name, ".png");
    name
}

/// The name of the file that frame `frame` of an animation goes to.
pub fn frame_name(frame: u32) -> (name: Vec<u8>)
    ensures
        name@ == frame_name_of(frame),
{
    proof {
        reveal_strlit("animation/frame_");
        reveal_strlit(".png");
    }
    let mut name: Vec<u8> = Vec::new();
    push_text(&mut name, "animation/frame_");
    push_decimal(&mut name, frame as u64, 5);
    push_text(&mut name, ".png");
    name
}

} // verus!
