//! Drawing one window of this process into a picture.
use crate::png::Image;
use crate::rect::{larger, Edges};
use crate::text::copy_text;
use vstd::prelude::*;

verus! {

/// The resolution of a window: what the system says, or that of an unscaled display.
pub fn dpi_of(hwnd: isize, reported: u32) -> (r: u32)
    ensures
        r == (if hwnd == 0 || reported == 0 { 96 } else { reported }),
{
    if hwnd == 0 || reported == 0 { 96 } else { reported }
}

/// The size of a picture, in pixels: one at least each way.
pub fn capture_size(e: Edges) -> (r: (i32, i32))
    requires
        e.fits(),
    ensures
        r.0 == larger(e.right - e.left, 1),
        r.1 == larger(e.bottom - e.top, 1),
{
    let width: i32 = e.right - e.left;
    let height: i32 = e.bottom - e.top;
    (if width < 1 { 1 } else { width }, if height < 1 { 1 } else { height })
}

/// How a window is drawn: its composited content (2), and only its inside (1).
pub fn capture_flags(client_only: bool) -> (r: u32)
    ensures
        r == (if client_only { 3int } else { 2 }),
{
    if client_only { 3 } else { 2 }
}

/// What the drawing came to.
pub struct Drawn {
    /// The edges, where they are known.
    pub edges: Option<Edges>,
    /// What is drawn through was there: the screen, the memory and the bitmap.
    pub screen: bool,
    pub memory: bool,
    pub bitmap: bool,
    /// The window was drawn.
    pub printed: bool,
    /// The lines that were read back.
    pub lines: i32,
    /// The pixels, from the top: blue, green, red, and a byte that means nothing.
    pub bgra: Vec<u8>,
}

impl Drawn {
    /// The pixels fill the picture.
    pub open spec fn filled(self) -> bool {
        match self.edges {
            Some(e) => e.fits() && self.bgra@.len() == larger(e.right - e.left, 1) * larger(e.bottom - e.top, 1) * 4,
            None => true,
        }
    }
}

/// Why there is no picture.
pub open spec fn capture_failure(hwnd: isize, d: Drawn) -> Option<Seq<char>> {
    if hwnd == 0 {
        Some("no window"@)
    } else if d.edges is None {
        Some("the window has no rectangle"@)
    } else if !d.screen {
        Some("no screen DC"@)
    } else if !d.memory || !d.bitmap || !d.printed {
        Some("PrintWindow failed"@)
    } else if d.lines <= 0 {
        Some("GetDIBits returned no scan lines"@)
    } else {
        None
    }
}

/// A byte of the picture: red and blue change places, and every pixel is opaque.
pub open spec fn opaque_byte(bgra: Seq<u8>, i: int) -> u8 {
    if i % 4 == 0 {
        bgra[i + 2]
    } else if i % 4 == 1 {
        bgra[i]
    } else if i % 4 == 2 {
        bgra[i - 2]
    } else {
        255
    }
}

/// The pixels of the picture.
pub open spec fn opaque(bgra: Seq<u8>) -> Seq<u8> {
    Seq::new(bgra.len(), |i: int| opaque_byte(bgra, i))
}

fn to_rgba(bgra: &Vec<u8>) -> (r: Vec<u8>)
    requires
        bgra@.len() % 4 == 0,
    ensures
        r@ == opaque(bgra@),
{
    let total: usize = bgra.len();
    let mut out: Vec<u8> = Vec::new();
    let mut i: usize = 0;
    while i < total
        invariant
            i <= total,
            total == bgra@.len(),
            total % 4 == 0,
            i % 4 == 0,
            out@.len() == i,
            forall|k: int| 0 <= k < i ==> out@[k] == opaque_byte(bgra@, k),
        decreases total - i,
    {
        let ghost before = out@;
        out.push(bgra[i + 2]);
        out.push(bgra[i + 1]);
        out.push(bgra[i]);
        out.push(255);
        proof {
            assert forall|k: int| 0 <= k < i + 4 implies out@[k] == opaque_byte(bgra@, k) by {
                if k < i {
                    assert(before[k] == opaque_byte(bgra@, k));
                }
            }
        }
        i = i + 4;
    }
    proof {
        assert(out@ =~= opaque(bgra@));
    }
    out
}

/// The picture of a window.
pub fn window(hwnd: isize, d: &Drawn) -> (r: Result<Image, String>)
    requires
        capture_failure(hwnd, *d) is None ==> d.filled(),
    ensures
        match r {
            Ok(image) => capture_failure(hwnd, *d) is None && image.rgba@ == opaque(d.bgra@) && d.edges is Some && image.width == larger(
                d.edges->0.right - d.edges->0.left,
                1,
            ) && image.height == larger(d.edges->0.bottom - d.edges->0.top, 1),
            Err(why) => capture_failure(hwnd, *d) == Some(why@),
        },
{
    if hwnd == 0 {
        return Err(copy_text("no window"));
    }
    let edges: Edges = match d.edges {
        Some(e) => e,
        None => {
            return Err(copy_text("the window has no rectangle"));
        },
    };
    if !d.screen {
        return Err(copy_text("no screen DC"));
    }
    if !d.memory || !d.bitmap || !d.printed {
        return Err(copy_text("PrintWindow failed"));
    }
    if d.lines <= 0 {
        return Err(copy_text("GetDIBits returned no scan lines"));
    }
    let (width, height): (i32, i32) = capture_size(edges);
    proof {
        let pixels = width as int * height as int;
        assert(pixels * 4 % 4 == 0);
    }
    let rgba = to_rgba(&d.bgra);
    Ok(Image { width: width as u32, height: height as u32, rgba })
}

/// What has to be given back, in this order, whatever became of the drawing.
#[derive(Debug, Clone, Copy, PartialEq, Eq, Structural)]
pub struct Release {
    /// The bitmap that was selected before.
    pub selection: bool,
    pub bitmap: bool,
    pub memory: bool,
    pub screen: bool,
}

/// Everything that was made is given back, and nothing else.
pub fn release(d: &Drawn) -> (r: Release)
    ensures
        r == (Release {
            selection: d.screen && d.memory && d.bitmap,
            bitmap: d.screen && d.bitmap,
            memory: d.screen && d.memory,
            screen: d.screen,
        }),
{
    Release { selection: d.screen && d.memory && d.bitmap, bitmap: d.screen && d.bitmap, memory: d.screen && d.memory, screen: d.screen }
}

/// A captured picture holds as many pixels as its size says, and each is opaque.
pub proof fn a_capture_is_opaque(bgra: Seq<u8>, i: int)
    requires
        0 <= i < bgra.len(),
        i % 4 == 3,
    ensures
        opaque(bgra)[i] == 255,
        opaque(bgra).len() == bgra.len(),
{
}

/// A captured picture has the colors of the window: where the window has blue, green and red the picture has red,
/// green and blue.
pub proof fn a_capture_has_the_colors_of_the_window(bgra: Seq<u8>, k: int)
    requires
        bgra.len() % 4 == 0,
        0 <= k < bgra.len() / 4,
    ensures
        opaque(bgra).len() == bgra.len(),
        opaque(bgra)[4 * k] == bgra[4 * k + 2],
        opaque(bgra)[4 * k + 1] == bgra[4 * k + 1],
        opaque(bgra)[4 * k + 2] == bgra[4 * k],
        opaque(bgra)[4 * k + 3] == 255,
{
}

/// There is a picture where there is a window with a rectangle, and drawing went through; else the first thing
/// that went wrong is named.
pub proof fn a_capture_names_what_went_wrong(hwnd: isize, d: Drawn)
    ensures
        capture_failure(hwnd, d) is None <==> hwnd != 0 && d.edges is Some && d.screen && d.memory && d.bitmap && d.printed && d.lines > 0,
        hwnd == 0 ==> capture_failure(hwnd, d) == Some("no window"@),
        hwnd != 0 && d.edges is None ==> capture_failure(hwnd, d) == Some("the window has no rectangle"@),
        hwnd != 0 && d.edges is Some && !d.screen ==> capture_failure(hwnd, d) == Some("no screen DC"@),
        hwnd != 0 && d.edges is Some && d.screen && !d.printed ==> capture_failure(hwnd, d) == Some("PrintWindow failed"@),
        hwnd != 0 && d.edges is Some && d.screen && d.memory && d.bitmap && d.printed && d.lines <= 0 ==> capture_failure(hwnd, d) == Some(
            "GetDIBits returned no scan lines"@,
        ),
{
}

} // verus!
