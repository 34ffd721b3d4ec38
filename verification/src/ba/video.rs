use vstd::prelude::*;
use crate::ba::decompressor::{Decompressed, decompress, decompress_spec};
use crate::ba::stream::{Stream, bits_of};
use crate::krnl::console::{
    Attribute,
    Color,
    Console,
    ConsoleBuf,
    ConsoleView,
    MAX_COLUMN,
    MAX_ROW,
    SIZE,
    SPACE,
    ScreenChar,
    attribute_of,
    push_writes,
};
use crate::krnl::port::{Port, wait_port};

verus! {

/// The character that a set pixel of a frame is drawn with.
pub const FILL: u8 = 37;  // '%'

// ---------------------------------------------------------------------------
// Outlining a frame: each drawn cell next to a blank cell gets a character
// that shows the direction of the boundary.
// ---------------------------------------------------------------------------

/// The cell at row `x`, column `y` is on the screen and blank.
pub open spec fn is_blank_at(f: Seq<ScreenChar>, x: int, y: int) -> bool {
    0 <= x < MAX_ROW && 0 <= y < MAX_COLUMN && f[x * MAX_COLUMN + y].ch == SPACE
}

/// Row step of direction `d`: 0 is up, 1 down, 2 left, 3 right.
pub open spec fn dx(d: int) -> int {
    if d == 0 {
        -1
    } else if d == 1 {
        1
    } else {
        0
    }
}

/// Column step of direction `d`.
pub open spec fn dy(d: int) -> int {
    if d == 2 {
        -1
    } else if d == 3 {
        1
    } else {
        0
    }
}

/// The neighbour of (x, y) in direction `d` is blank.
pub open spec fn empty_toward(f: Seq<ScreenChar>, x: int, y: int, d: int) -> bool {
    is_blank_at(f, x + dx(d), y + dy(d))
}

/// How many neighbours of (x, y) are blank.
pub open spec fn n_empty(f: Seq<ScreenChar>, x: int, y: int) -> int {
    (if empty_toward(f, x, y, 0) { 1int } else { 0int }) + (if empty_toward(f, x, y, 1) {
        1int
    } else {
        0int
    }) + (if empty_toward(f, x, y, 2) { 1int } else { 0int }) + (if empty_toward(f, x, y, 3) {
        1int
    } else {
        0int
    })
}

/// The last direction, in the order up, down, left, right, whose neighbour
/// is blank, or -1.
pub open spec fn last_empty(f: Seq<ScreenChar>, x: int, y: int) -> int {
    if empty_toward(f, x, y, 3) {
        3
    } else if empty_toward(f, x, y, 2) {
        2
    } else if empty_toward(f, x, y, 1) {
        1
    } else if empty_toward(f, x, y, 0) {
        0
    } else {
        -1
    }
}

/// A neighbour across direction `d` (left or right of a vertical direction,
/// up or down of a horizontal one) is blank.
pub open spec fn empty_across(f: Seq<ScreenChar>, x: int, y: int, d: int) -> bool {
    if d < 2 {
        empty_toward(f, x, y, 2) || empty_toward(f, x, y, 3)
    } else {
        empty_toward(f, x, y, 0) || empty_toward(f, x, y, 1)
    }
}

/// The line drawn on a boundary facing direction `d`: 'v', '^', '\\', '/'.
pub open spec fn line_char(d: int) -> u8 {
    if d == 0 {
        118
    } else if d == 1 {
        94
    } else if d == 2 {
        92
    } else {
        47
    }
}

/// The dot drawn on a corner facing direction `d`: ',', '.', '\'', '`'.
pub open spec fn dot_char(d: int) -> u8 {
    if d == 0 {
        44
    } else if d == 1 {
        46
    } else if d == 2 {
        39
    } else {
        96
    }
}

/// The character of cell (x, y) after outlining the frame `f`.
pub open spec fn artified_char(f: Seq<ScreenChar>, x: int, y: int) -> u8 {
    let c = f[x * MAX_COLUMN + y].ch;
    let d = last_empty(f, x, y);
    if c == SPACE || d < 0 {
        c
    } else if n_empty(f, x, y) <= 2 && !empty_across(f, x, y, d) {
        line_char(d)
    } else {
        dot_char(d)
    }
}

/// The frame `f` after outlining.
pub open spec fn artified(f: Seq<ScreenChar>) -> Seq<ScreenChar> {
    Seq::new(
        f.len(),
        |i: int|
            ScreenChar {
                ch: artified_char(f, i / MAX_COLUMN as int, i % MAX_COLUMN as int),
                attrib: f[i].attrib,
            },
    )
}

/// Whether the neighbour of (x, y) in direction `d` is on the screen and blank.
fn blank_toward(frame: &ConsoleBuf, x: usize, y: usize, d: usize) -> (r: bool)
    requires
        frame@.len() == SIZE,
        x < MAX_ROW,
        y < MAX_COLUMN,
        d < 4,
    ensures
        r == empty_toward(frame@, x as int, y as int, d as int),
{
    let (nx, ny) = if d == 0 {
        if x == 0 {
            return false;
        }
        (x - 1, y)
    } else if d == 1 {
        (x + 1, y)
    } else if d == 2 {
        if y == 0 {
            return false;
        }
        (x, y - 1)
    } else {
        (x, y + 1)
    };
    if nx >= MAX_ROW || ny >= MAX_COLUMN {
        return false;
    }
    frame[nx * MAX_COLUMN + ny].ch == SPACE
}

/// Outlines the frame: each drawn cell next to a blank cell gets a line or
/// dot character that points at the blank side.
pub fn artify(frame: &mut ConsoleBuf)
    requires
        old(frame)@.len() == SIZE,
    ensures
        final(frame)@ == artified(old(frame)@),
{
    let ghost f0 = frame@;
    let mut i: usize = 0;
    while i < SIZE
        invariant
            f0 == old(frame)@,
            f0.len() == SIZE,
            frame@.len() == SIZE,
            i <= SIZE,
            forall|j: int| 0 <= j < SIZE ==> ((#[trigger] frame@[j]).ch == SPACE <==> f0[j].ch == SPACE),
            forall|j: int| 0 <= j < i ==> #[trigger] frame@[j] == artified(f0)[j],
            forall|j: int| i <= j < SIZE ==> #[trigger] frame@[j] == f0[j],
        decreases SIZE - i,
    {
        let x = i / MAX_COLUMN;
        let y = i % MAX_COLUMN;
        assert(x * MAX_COLUMN + y == i);
        let cur = frame[i];
        if cur.ch != SPACE {
            let e0 = blank_toward(frame, x, y, 0);
            let e1 = blank_toward(frame, x, y, 1);
            let e2 = blank_toward(frame, x, y, 2);
            let e3 = blank_toward(frame, x, y, 3);
            proof {
                assert forall|d: int| 0 <= d < 4 implies empty_toward(frame@, x as int, y as int, d)
                    == empty_toward(f0, x as int, y as int, d) by {
                    let nx = x + dx(d);
                    let ny = y + dy(d);
                    if 0 <= nx < MAX_ROW && 0 <= ny < MAX_COLUMN {
                        assert(frame@[nx * MAX_COLUMN + ny].ch == SPACE <==> f0[nx * MAX_COLUMN
                            + ny].ch == SPACE);
                    }
                }
            }
            let mut dir: Option<usize> = None;
            let mut n: usize = 0;
            if e0 {
                dir = Some(0);
                n += 1;
            }
            if e1 {
                dir = Some(1);
                n += 1;
            }
            if e2 {
                dir = Some(2);
                n += 1;
            }
            if e3 {
                dir = Some(3);
                n += 1;
            }
            if let Some(d) = dir {
                let mut use_line = true;
                if n > 2 {
                    use_line = false;
                }
                let side1 = if d < 2 {
                    e2
                } else {
                    e0
                };
                let side2 = if d < 2 {
                    e3
                } else {
                    e1
                };
                if side1 {
                    use_line = false;
                }
                if side2 {
                    use_line = false;
                }
                let new_char = if use_line {
                    line_char_of(d)
                } else {
                    dot_char_of(d)
                };
                frame.set(i, ScreenChar { ch: new_char, attrib: cur.attrib });
            }
        }
        proof {
            assert(frame@[i as int] == artified(f0)[i as int]);
        }
        i += 1;
    }
    assert(frame@ =~= artified(f0));
}

/// Cell (x, y) of an outlined frame is computed from cell (x, y) of the
/// frame and its neighbours.
proof fn lemma_artified_cell(f: Seq<ScreenChar>, x: int, y: int)
    requires
        f.len() == SIZE,
        0 <= x < MAX_ROW,
        0 <= y < MAX_COLUMN,
    ensures
        artified(f)[x * 80 + y] == (ScreenChar {
            ch: artified_char(f, x, y),
            attrib: f[x * 80 + y].attrib,
        }),
{
    let i = x * 80 + y;
    assert(i / 80 == x && i % 80 == y && 0 <= i < 2000) by (nonlinear_arith)
        requires
            i == x * 80 + y,
            0 <= x < 25,
            0 <= y < 80,
    ;
}

/// Outlining keeps every cell's attribute and every blank cell, and leaves
/// a drawn cell with no blank neighbour as it is. A drawn cell with exactly
/// one blank neighbour gets the line character that faces it: 'v' (118)
/// for a blank above, '^' (94) below, '\\' (92) on the left, '/' (47) on the
/// right. A drawn cell whose only blank neighbours are the two cells above
/// and below it gets '^' (94), and one whose only blank neighbours are the
/// two cells to its left and right gets '/' (47): two blank sides across
/// each other still make a line, not a dot. A drawn cell with a blank
/// neighbour above or below and another to the right becomes '`' (96), and
/// with one above or below and one to the left only, '\'' (39). A cell off
/// the screen counts as drawn.
pub proof fn lemma_artify_cell(f: Seq<ScreenChar>, x: int, y: int)
    requires
        f.len() == SIZE,
        0 <= x < MAX_ROW,
        0 <= y < MAX_COLUMN,
    ensures
        artified(f).len() == SIZE,
        artified(f)[x * 80 + y].attrib == f[x * 80 + y].attrib,
        f[x * 80 + y].ch == 32 ==> artified(f)[x * 80 + y].ch == 32,
        ({
            let c = f[x * 80 + y].ch;
            let up = x >= 1 && f[(x - 1) * 80 + y].ch == 32;
            let down = x + 1 < 25 && f[(x + 1) * 80 + y].ch == 32;
            let left = y >= 1 && f[x * 80 + y - 1].ch == 32;
            let right = y + 1 < 80 && f[x * 80 + y + 1].ch == 32;
            let r = artified(f)[x * 80 + y].ch;
            &&& (!up && !down && !left && !right) ==> r == c
            &&& (c != 32 && up && !down && !left && !right) ==> r == 118
            &&& (c != 32 && !up && down && !left && !right) ==> r == 94
            &&& (c != 32 && !up && !down && left && !right) ==> r == 92
            &&& (c != 32 && !up && !down && !left && right) ==> r == 47
            &&& (c != 32 && up && down && !left && !right) ==> r == 94
            &&& (c != 32 && !up && !down && left && right) ==> r == 47
            &&& (c != 32 && (up || down) && right) ==> r == 96
            &&& (c != 32 && (up || down) && left && !right) ==> r == 39
        }),
{
    lemma_artified_cell(f, x, y);
    assert(empty_toward(f, x, y, 0) == (x >= 1 && f[(x - 1) * 80 + y].ch == 32));
    assert(empty_toward(f, x, y, 1) == (x + 1 < 25 && f[(x + 1) * 80 + y].ch == 32));
    assert(empty_toward(f, x, y, 2) == (y >= 1 && f[x * 80 + y - 1].ch == 32));
    assert(empty_toward(f, x, y, 3) == (y + 1 < 80 && f[x * 80 + y + 1].ch == 32));
}

fn line_char_of(d: usize) -> (c: u8)
    requires
        d < 4,
    ensures
        c == line_char(d as int),
{
    if d == 0 {
        118  // 'v'
    } else if d == 1 {
        94  // '^'
    } else if d == 2 {
        92  // '\\'
    } else {
        47  // '/'
    }
}

fn dot_char_of(d: usize) -> (c: u8)
    requires
        d < 4,
    ensures
        c == dot_char(d as int),
{
    if d == 0 {
        44  // ','
    } else if d == 1 {
        46  // '.'
    } else if d == 2 {
        39  // '\''
    } else {
        96  // '`'
    }
}

// ---------------------------------------------------------------------------
// The video.
// ---------------------------------------------------------------------------

/// Frame `f` of the decoded bits: one bit per cell, row by row, a clear bit
/// drawn as `FILL` and a set bit left blank, then outlined.
pub open spec fn frame_of(bits: Seq<u8>, f: int) -> Seq<ScreenChar> {
    artified(
        Seq::new(
            SIZE as nat,
            |c: int|
                ScreenChar {
                    ch: if bits[f * SIZE + c] == 0 {
                        FILL
                    } else {
                        SPACE
                    },
                    attrib: attribute_of(Color::LightGrey, Color::Black),
                },
        ),
    )
}

/// The first `n` frames of the decoded buffer `buf`.
pub open spec fn frames_of(buf: Seq<u8>, n: nat) -> Seq<Seq<ScreenChar>> {
    Seq::new(n, |f: int| frame_of(bits_of(buf), f))
}

/// The video data is well formed: it decompresses, and the buffer holds a
/// bit for every cell of every frame.
pub open spec fn video_ok(vdata: Seq<u8>) -> bool {
    match decompress_spec(vdata) {
        Some(d) => d.0 * SIZE <= d.1.len() * 8,
        None => false,
    }
}

pub struct VideoView {
    pub n_frames: nat,
    pub cur_frame: nat,
    pub frames: Seq<Seq<ScreenChar>>,
}

pub struct Video {
    n_frames: usize,
    cur_frame: usize,
    frames: Vec<ConsoleBuf>,
}

impl View for Video {
    type V = VideoView;

    closed spec fn view(&self) -> VideoView {
        VideoView {
            n_frames: self.n_frames as nat,
            cur_frame: self.cur_frame as nat,
            frames: Seq::new(self.frames@.len(), |i: int| self.frames@[i]@),
        }
    }
}

impl Video {
    /// There is a frame for each index below the frame count, and each frame
    /// holds a whole screen.
    pub closed spec fn wf(&self) -> bool {
        &&& self.frames@.len() == self.n_frames
        &&& self.n_frames < 0x1_0000
        &&& forall|i: int| 0 <= i < self.frames@.len() ==> (#[trigger] self.frames@[i])@.len() == SIZE
    }

    /// A well-formed video has fewer than 0x10000 frames.
    pub proof fn lemma_frame_bound(&self)
        requires
            self.wf(),
        ensures
            self@.n_frames < 0x1_0000,
            self@.frames.len() == self@.n_frames,
    {
    }

    pub fn new() -> (v: Video)
        ensures
            v.wf(),
            v@.n_frames == 0,
            v@.cur_frame == 0,
            v@.frames == Seq::<Seq<ScreenChar>>::empty(),
    {
        let v = Video { n_frames: 0, cur_frame: 0, frames: Vec::new() };
        assert(v@.frames =~= Seq::<Seq<ScreenChar>>::empty());
        v
    }

    /// Loads the frames from the compressed video data. Gives `false`, and
    /// leaves the video as it was, where the data is corrupted.
    pub fn initialize(&mut self, vdata: &[u8]) -> (ok: bool)
        requires
            old(self).wf(),
            vdata@.len() * 8 <= usize::MAX,
        ensures
            final(self).wf(),
            ok == video_ok(vdata@),
            ok ==> final(self)@ == (VideoView {
                n_frames: decompress_spec(vdata@).unwrap().0,
                cur_frame: old(self)@.cur_frame,
                frames: frames_of(
                    decompress_spec(vdata@).unwrap().1,
                    decompress_spec(vdata@).unwrap().0,
                ),
            }),
            !ok ==> *final(self) == *old(self),
    {
        match decompress(vdata) {
            Some(d) => self.initialize_from(d),
            None => false,
        }
    }

    /// Loads the frames from decompressed video data. Gives `false`, and
    /// leaves the video as it was, where the buffer lacks a bit for some cell
    /// of some frame.
    pub fn initialize_from(&mut self, decompressed: Decompressed) -> (ok: bool)
        requires
            old(self).wf(),
            decompressed.n_frames < 0x1_0000,
        ensures
            final(self).wf(),
            ok == (decompressed.n_frames * SIZE <= decompressed.buf@.len() * 8),
            ok ==> final(self)@ == (VideoView {
                n_frames: decompressed.n_frames as nat,
                cur_frame: old(self)@.cur_frame,
                frames: frames_of(decompressed.buf@, decompressed.n_frames as nat),
            }),
            !ok ==> *final(self) == *old(self),
    {
        let n = decompressed.n_frames;
        if decompressed.buf.len() < n * 250 {
            return false;
        }
        let ghost bits = bits_of(decompressed.buf@);
        let mut reader = Stream::new(decompressed.buf.as_slice());
        let mut frames: Vec<ConsoleBuf> = Vec::new();
        let mut f: usize = 0;
        while f < n
            invariant
                n < 0x1_0000,
                n * SIZE <= bits.len(),
                f <= n,
                reader.bits() == bits,
                reader.pos() == f * SIZE,
                frames@.len() == f,
                forall|g: int| 0 <= g < f ==> (#[trigger] frames@[g])@ == frame_of(bits, g),
            decreases n - f,
        {
            let mut frame: ConsoleBuf = Vec::new();
            let mut c: usize = 0;
            while c < SIZE
                invariant
                    n < 0x1_0000,
                    n * SIZE <= bits.len(),
                    f < n,
                    c <= SIZE,
                    reader.bits() == bits,
                    reader.pos() == f * SIZE + c,
                    frame@.len() == c,
                    forall|k: int|
                        0 <= k < c ==> #[trigger] frame@[k] == (ScreenChar {
                            ch: if bits[f * SIZE + k] == 0 {
                                FILL
                            } else {
                                SPACE
                            },
                            attrib: attribute_of(Color::LightGrey, Color::Black),
                        }),
                decreases SIZE - c,
            {
                assert(f * SIZE + c < n * SIZE) by (nonlinear_arith)
                    requires
                        f < n,
                        c < SIZE,
                ;
                let bit = reader.next_byte();
                let ch = if bit == 0 {
                    FILL
                } else {
                    SPACE
                };
                frame.push(ScreenChar::new(ch, Attribute::default()));
                c += 1;
            }
            let ghost raw = frame@;
            assert(raw =~= Seq::new(
                SIZE as nat,
                |k: int|
                    ScreenChar {
                        ch: if bits[f * SIZE + k] == 0 {
                            FILL
                        } else {
                            SPACE
                        },
                        attrib: attribute_of(Color::LightGrey, Color::Black),
                    },
            ));
            artify(&mut frame);
            frames.push(frame);
            f += 1;
        }
        self.n_frames = n;
        self.frames = frames;
        assert(self@.frames =~= frames_of(decompressed.buf@, n as nat));
        true
    }

    /// The percentage of the video shown once the current frame is shown.
    pub fn progress(&self) -> (p: usize)
        requires
            self@.n_frames > 0,
            (self@.cur_frame + 1) * 100 <= usize::MAX,
        ensures
            p == (self@.cur_frame + 1) * 100 / self@.n_frames,
    {
        (self.cur_frame + 1) * 100 / self.n_frames
    }

    pub fn has_next(&self) -> (r: bool)
        ensures
            r == (self@.cur_frame < self@.n_frames),
    {
        self.cur_frame < self.n_frames
    }

    /// Shows the current frame on the console and moves to the next one.
    pub fn next(&mut self, console: &mut Console) -> (w: Vec<(Port, u8)>)
        requires
            old(self).wf(),
            old(console).wf(),
            old(self)@.cur_frame < old(self)@.n_frames,
        ensures
            final(self).wf(),
            final(self)@ == (VideoView { cur_frame: old(self)@.cur_frame + 1, ..old(self)@ }),
            final(console).wf(),
            final(console)@ == (ConsoleView {
                screen: old(self)@.frames[old(self)@.cur_frame as int],
                row: 0,
                col: 0,
                ..old(console)@
            }),
            w@ == push_writes(final(console)@).push((wait_port(), 0u8)),
    {
        let w = console.bkcpy(&self.frames[self.cur_frame]);
        self.cur_frame += 1;
        w
    }
}

} // verus!
