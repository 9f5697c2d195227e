//! A minimal 8-bit RGBA PNG codec, and the cropping and doubling of images.
//!
//! [`write_png`] makes a PNG with colour type 6 and filter 0 on every scan line; [`read_png`] reads
//! 8-bit non-interlaced PNGs (grayscale, grayscale with alpha, RGB, RGBA) with all five scan-line
//! filters. Reading what was written gives the image back ([`round_trip`]).
use crate::bytes::{be32, be32_at, bytes_at, copy_range, push_be32, push_range, read_be32};
use crate::codec::{checksum, crc32, seen, zlib_pack, zlib_packed, zlib_unpack, zlib_unpacked};
use crate::text::{decimal, decimal_text};
use vstd::prelude::*;

verus! {

/// An image: row-major RGBA, top-down.
pub struct Image {
    pub width: u32,
    pub height: u32,
    /// Row-major RGBA, top-down.
    pub rgba: Vec<u8>,
}

/// The model of an [`Image`].
#[verifier::ext_equal]
pub struct Picture {
    pub width: nat,
    pub height: nat,
    pub rgba: Seq<u8>,
}

impl View for Image {
    type V = Picture;

    open spec fn view(&self) -> Picture {
        Picture { width: self.width as nat, height: self.height as nat, rgba: self.rgba@ }
    }
}

/// The four bytes of pixel number `n` (row-major).
pub open spec fn nth_pixel(rgba: Seq<u8>, n: int) -> Seq<u8> {
    rgba.subrange(n * 4, n * 4 + 4)
}

impl Picture {
    /// Every pixel of the image has its four bytes.
    pub open spec fn covers(self) -> bool {
        self.width * self.height * 4 <= self.rgba.len()
    }

    /// The four bytes of the pixel at column `x`, row `y`.
    pub open spec fn at(self, x: int, y: int) -> Seq<u8> {
        nth_pixel(self.rgba, y * self.width + x)
    }
}

/// A pixel inside the image has its four bytes inside the buffer.
proof fn pixel_in_range(w: int, h: int, x: int, y: int, len: int)
    requires
        0 <= x < w,
        0 <= y < h,
        w * h * 4 <= len,
    ensures
        0 <= y * w,
        0 <= y * w + x < w * h,
        (y * w + x) * 4 + 4 <= len,
{
    assert(0 <= y * w && y * w + w <= w * h) by (nonlinear_arith)
        requires
            0 <= x < w,
            0 <= y < h,
    ;
}

impl Image {
    /// The RGBA bytes at column `x`, row `y`; `None` outside the image.
    pub fn pixel(&self, x: u32, y: u32) -> (r: Option<[u8; 4]>)
        requires
            self@.covers(),
        ensures
            r is Some <==> x < self.width && y < self.height,
            r is Some ==> r->0@ == self@.at(x as int, y as int),
    {
        if x >= self.width || y >= self.height {
            return None;
        }
        let total: usize = self.rgba.len();
        proof {
            pixel_in_range(self.width as int, self.height as int, x as int, y as int, total as int);
        }
        let i: usize = (y as usize * self.width as usize + x as usize) * 4;
        let p = [self.rgba[i], self.rgba[i + 1], self.rgba[i + 2], self.rgba[i + 3]];
        proof {
            assert(p@ =~= self@.at(x as int, y as int));
        }
        Some(p)
    }
}

// ------------------------------------------------------------------------------ writing

/// The eight bytes every PNG starts with.
pub open spec fn signature() -> Seq<u8> {
    seq![0x89u8, 0x50, 0x4E, 0x47, 0x0D, 0x0A, 0x1A, 0x0A]
}

pub open spec fn ihdr() -> Seq<u8> {
    seq![0x49u8, 0x48, 0x44, 0x52]
}

pub open spec fn idat() -> Seq<u8> {
    seq![0x49u8, 0x44, 0x41, 0x54]
}

pub open spec fn iend() -> Seq<u8> {
    seq![0x49u8, 0x45, 0x4E, 0x44]
}

/// A chunk: the length of the body, the kind, the body, and the checksum of kind and body.
pub open spec fn chunk_bytes(kind: Seq<u8>, body: Seq<u8>) -> Seq<u8> {
    be32((body.len() % 0x1_0000_0000) as nat) + kind + body + be32(crc32(kind + body) as nat)
}

/// The first `rows` scan lines, each a filter byte 0 and the row's bytes.
pub open spec fn scan_lines(p: Picture, rows: nat) -> Seq<u8>
    decreases rows,
{
    if rows == 0 {
        Seq::empty()
    } else {
        let y = (rows - 1) as nat;
        scan_lines(p, y) + seq![0u8] + p.rgba.subrange((y * (p.width * 4)) as int, (y * (p.width * 4) + p.width * 4) as int)
    }
}

/// The body of the header chunk of an RGBA image.
pub open spec fn header_bytes(width: nat, height: nat) -> Seq<u8> {
    be32(width) + be32(height) + seq![8u8, 6, 0, 0, 0]
}

/// The file that holds an image whose packed scan lines are `packed`.
pub open spec fn png_file(width: nat, height: nat, packed: Seq<u8>) -> Seq<u8> {
    signature() + chunk_bytes(ihdr(), header_bytes(width, height)) + chunk_bytes(idat(), packed) + chunk_bytes(iend(), Seq::empty())
}

/// What [`write_png`] makes of an image.
pub open spec fn encoded(p: Picture) -> Result<Seq<u8>, Seq<char>> {
    match zlib_packed(scan_lines(p, p.height)) {
        Ok(packed) => Ok(png_file(p.width, p.height, packed)),
        Err(e) => Err(e),
    }
}

/// Appends one chunk.
pub fn chunk(out: &mut Vec<u8>, kind: &[u8; 4], body: &[u8])
    ensures
        final(out)@ == old(out)@ + chunk_bytes(kind@, body@),
{
    let length: u32 = (body.len() as u64 % 0x1_0000_0000) as u32;
    push_be32(out, length);
    let mut covered: Vec<u8> = Vec::new();
    push_range(&mut covered, kind.as_slice(), 0, 4);
    push_range(&mut covered, body, 0, body.len());
    proof {
        assert(kind@.subrange(0, 4) =~= kind@);
        assert(body@.subrange(0, body@.len() as int) =~= body@);
        assert(covered@ =~= kind@ + body@);
    }
    push_range(out, covered.as_slice(), 0, covered.len());
    push_be32(out, checksum(covered.as_slice()));
    proof {
        assert(covered@.subrange(0, covered@.len() as int) =~= covered@);
        assert(out@ =~= old(out)@ + chunk_bytes(kind@, body@));
    }
}

/// The file made of a header, the packed scan lines and the end.
fn assemble(width: u32, height: u32, packed: &[u8]) -> (r: Vec<u8>)
    ensures
        r@ == png_file(width as nat, height as nat, packed@),
{
    let mut png: Vec<u8> = vec![0x89, 0x50, 0x4E, 0x47, 0x0D, 0x0A, 0x1A, 0x0A];
    let mut header: Vec<u8> = Vec::new();
    push_be32(&mut header, width);
    push_be32(&mut header, height);
    header.push(8);
    header.push(6);
    header.push(0);
    header.push(0);
    header.push(0);
    let nothing: Vec<u8> = Vec::new();
    proof {
        assert(png@ =~= signature());
        assert(header@ =~= header_bytes(width as nat, height as nat));
        assert([0x49u8, 0x48, 0x44, 0x52]@ =~= ihdr());
        assert([0x49u8, 0x44, 0x41, 0x54]@ =~= idat());
        assert([0x49u8, 0x45, 0x4E, 0x44]@ =~= iend());
        assert(nothing@ =~= Seq::<u8>::empty());
    }
    chunk(&mut png, &[0x49u8, 0x48, 0x44, 0x52], header.as_slice());
    chunk(&mut png, &[0x49u8, 0x44, 0x41, 0x54], packed);
    chunk(&mut png, &[0x49u8, 0x45, 0x4E, 0x44], nothing.as_slice());
    png
}

/// An 8-bit RGBA PNG (colour type 6), filter 0 on every scan line. Fails only where the compressor
/// does, with its text.
pub fn write_png(image: &Image) -> (r: Result<Vec<u8>, String>)
    requires
        image@.covers(),
    ensures
        seen(r) == encoded(image@),
        r is Ok ==> zlib_packed(scan_lines(image@, image.height as nat)) is Ok,
        r is Ok ==> crate::codec::unpacks_to(
            zlib_packed(scan_lines(image@, image.height as nat))->Ok_0,
            scan_lines(image@, image.height as nat),
        ),
{
    let mut raw: Vec<u8> = Vec::new();
    let total: usize = image.rgba.len();
    let height: usize = image.height as usize;
    let mut y: usize = 0;
    while y < height
        invariant
            height == image.height,
            total == image.rgba@.len(),
            image@.covers(),
            y <= height,
            raw@ == scan_lines(image@, y as nat),
        decreases height - y,
    {
        proof {
            let (w, h, yy) = (image.width as int, height as int, y as int);
            assert(w * h * 4 == (w * 4) * h) by (nonlinear_arith);
            assert(0 <= yy * (w * 4) && yy * (w * 4) + w * 4 <= (w * 4) * h) by (nonlinear_arith)
                requires
                    0 <= w,
                    0 <= yy < h,
            ;
            if w > 0 {
                assert(w * 4 <= (w * 4) * h) by (nonlinear_arith)
                    requires
                        0 <= w,
                        0 < h,
                ;
            }
        }
        let row: usize = image.width as usize * 4;
        let start: usize = y * row;
        raw.push(0);
        push_range(&mut raw, image.rgba.as_slice(), start, start + row);
        proof {
            assert(raw@ =~= scan_lines(image@, (y + 1) as nat));
        }
        y = y + 1;
    }
    match zlib_pack(raw.as_slice()) {
        Ok(packed) => Ok(assemble(image.width, image.height, packed.as_slice())),
        Err(e) => Err(e),
    }
}

// ------------------------------------------------------------------------------ reading

/// The Paeth predictor: whichever of left, above and upper left is nearest to left + above - upper
/// left, in that order of preference.
pub open spec fn paeth_of(a: int, b: int, c: int) -> int {
    let p = a + b - c;
    if abs_diff(p, a) <= abs_diff(p, b) && abs_diff(p, a) <= abs_diff(p, c) {
        a
    } else if abs_diff(p, b) <= abs_diff(p, c) {
        b
    } else {
        c
    }
}

pub open spec fn abs_diff(a: int, b: int) -> int {
    if a < b { b - a } else { a - b }
}

fn gap(a: i32, b: i32) -> (r: i32)
    requires
        -1000 <= a <= 1000,
        -1000 <= b <= 1000,
    ensures
        r == abs_diff(a as int, b as int),
{
    if a < b { b - a } else { a - b }
}

/// The Paeth predictor of three neighbouring bytes.
pub fn paeth(a: u8, b: u8, c: u8) -> (r: u8)
    ensures
        r == paeth_of(a as int, b as int, c as int),
{
    let p: i32 = a as i32 + b as i32 - c as i32;
    let pa: i32 = gap(p, a as i32);
    let pb: i32 = gap(p, b as i32);
    let pc: i32 = gap(p, c as i32);
    if pa <= pb && pa <= pc {
        a
    } else if pb <= pc {
        b
    } else {
        c
    }
}

/// Bytes per pixel of a colour type: grayscale, RGB, grayscale with alpha, RGBA.
pub open spec fn channels_of(color: u8) -> Option<nat> {
    if color == 0 {
        Some(1)
    } else if color == 2 {
        Some(3)
    } else if color == 4 {
        Some(2)
    } else if color == 6 {
        Some(4)
    } else {
        None
    }
}

/// What the chunks of a file say: the size, the bytes per pixel (all 0 before a header), and the
/// packed scan lines.
#[verifier::ext_equal]
pub struct Content {
    pub width: nat,
    pub height: nat,
    pub channels: nat,
    pub packed: Seq<u8>,
}

/// Before the first chunk.
pub open spec fn nothing_read() -> Content {
    Content { width: 0, height: 0, channels: 0, packed: Seq::empty() }
}

/// Width, height and channels from the body of a header chunk.
pub open spec fn header_of(body: Seq<u8>) -> Result<(nat, nat, nat), Seq<char>> {
    if body.len() < 13 {
        Err("short IHDR"@)
    } else if body[8] != 8 || body[12] != 0 {
        Err(
            "only 8-bit non-interlaced PNGs are read (depth "@ + decimal(body[8] as nat) + ", interlace "@ + decimal(body[12] as nat)
                + ")"@,
        )
    } else {
        match channels_of(body[9]) {
            Some(c) => Ok((be32_at(body, 0), be32_at(body, 4), c)),
            None => Err("unsupported PNG color type "@ + decimal(body[9] as nat)),
        }
    }
}

/// The chunks from `at` on, added to what earlier chunks said. Reading stops at the end chunk, or
/// where fewer than eight bytes are left.
pub open spec fn chunks(bytes: Seq<u8>, at: int, so_far: Content) -> Result<Content, Seq<char>>
    decreases bytes.len() - at,
{
    if at < 0 || at + 8 > bytes.len() {
        Ok(so_far)
    } else {
        let length = be32_at(bytes, at) as int;
        let kind = bytes.subrange(at + 4, at + 8);
        if at + 8 + length + 4 > bytes.len() {
            Err("truncated chunk"@)
        } else {
            let body = bytes.subrange(at + 8, at + 8 + length);
            let next = at + 8 + length + 4;
            if kind == ihdr() {
                match header_of(body) {
                    Ok((w, h, c)) => chunks(bytes, next, Content { width: w, height: h, channels: c, packed: so_far.packed }),
                    Err(e) => Err(e),
                }
            } else if kind == idat() {
                chunks(bytes, next, Content { packed: so_far.packed + body, ..so_far })
            } else if kind == iend() {
                Ok(so_far)
            } else {
                chunks(bytes, next, so_far)
            }
        }
    }
}

/// Undoes a scan-line filter on one byte, given its unfiltered neighbours: none, left, above, the mean
/// of the two, Paeth.
pub open spec fn filtered(filter: u8, byte: int, left: int, above: int, corner: int) -> int {
    if filter == 0 {
        byte
    } else if filter == 1 {
        (byte + left) % 256
    } else if filter == 2 {
        (byte + above) % 256
    } else if filter == 3 {
        (byte + (left + above) / 2) % 256
    } else {
        (byte + paeth_of(left, above, corner)) % 256
    }
}

/// The byte at column `x` of row `y` once the scan-line filters are undone (`stride` bytes per row,
/// `channels` bytes per pixel).
pub open spec fn unfiltered(raw: Seq<u8>, stride: int, channels: int, y: int, x: int) -> int
    decreases y, x,
{
    if y < 0 || x < 0 || channels <= 0 {
        0
    } else {
        let filter = raw[y * (stride + 1)];
        let byte = raw[y * (stride + 1) + 1 + x] as int;
        let left = if x >= channels { unfiltered(raw, stride, channels, y, x - channels) } else { 0 };
        let above = if y > 0 { unfiltered(raw, stride, channels, y - 1, x) } else { 0 };
        let corner = if y > 0 && x >= channels { unfiltered(raw, stride, channels, y - 1, x - channels) } else { 0 };
        filtered(filter, byte, left, above, corner)
    }
}

/// The unfiltered byte at row-major position `j`.
pub open spec fn unfiltered_at(raw: Seq<u8>, stride: int, channels: int, j: int) -> int {
    unfiltered(raw, stride, channels, j / stride, j % stride)
}

/// The filter of the first row from `y` on whose filter is not one of the five.
pub open spec fn bad_filter(raw: Seq<u8>, stride: int, y: int, height: int) -> Option<u8>
    decreases height - y,
{
    if y < 0 || y >= height {
        None
    } else if raw[y * (stride + 1)] > 4 {
        Some(raw[y * (stride + 1)])
    } else {
        bad_filter(raw, stride, y + 1, height)
    }
}

/// Byte `c` of the RGBA pixel made of the `channels` samples that start at row `y`, column `x`.
pub open spec fn rgba_byte(raw: Seq<u8>, stride: int, channels: int, y: int, x: int, c: int) -> u8 {
    if channels == 4 || (channels == 3 && c < 3) {
        unfiltered(raw, stride, channels, y, x + c) as u8
    } else if channels == 3 {
        255
    } else if c < 3 {
        unfiltered(raw, stride, channels, y, x) as u8
    } else if channels == 2 {
        unfiltered(raw, stride, channels, y, x + 1) as u8
    } else {
        255
    }
}

/// The image that unpacked scan lines hold.
pub open spec fn image_of(width: nat, height: nat, channels: nat, raw: Seq<u8>) -> Result<Picture, Seq<char>> {
    let stride = (width * channels) as int;
    if raw.len() < (stride + 1) * height {
        Err("short image data"@)
    } else {
        match bad_filter(raw, stride, 0, height as int) {
            Some(f) => Err("unknown scan-line filter "@ + decimal(f as nat)),
            None => Ok(
                Picture {
                    width,
                    height,
                    rgba: Seq::new(
                        (width * height * 4) as nat,
                        |i: int|
                            rgba_byte(raw, stride, channels as int, i / 4 / width as int, (i / 4 % width as int) * channels, i % 4),
                    ),
                },
            ),
        }
    }
}

/// What [`read_png`] makes of a file.
pub open spec fn decoded(bytes: Seq<u8>) -> Result<Picture, Seq<char>> {
    if bytes.len() < 8 || bytes.take(8) != signature() {
        Err("not a PNG"@)
    } else {
        match chunks(bytes, 8, nothing_read()) {
            Err(e) => Err(e),
            Ok(c) => if c.width == 0 || c.height == 0 || c.channels == 0 {
                Err("no image header"@)
            } else {
                match zlib_unpacked(c.packed) {
                    Err(e) => Err("inflate: "@ + e),
                    Ok(raw) => image_of(c.width, c.height, c.channels, raw),
                }
            },
        }
    }
}

/// An image that was read has a width, a height and four bytes for each pixel.
pub proof fn a_read_image_is_whole(bytes: Seq<u8>)
    ensures
        match decoded(bytes) {
            Ok(p) => p.width > 0 && p.height > 0 && p.rgba.len() == p.width * p.height * 4 && p.covers(),
            Err(_) => true,
        },
{
}

/// A `Result` of an image seen through the views of its two sides.
pub open spec fn image_seen(r: Result<Image, String>) -> Result<Picture, Seq<char>> {
    match r {
        Ok(i) => Ok(i@),
        Err(e) => Err(e@),
    }
}


/// Reads the body of a header chunk: width, height, bytes per pixel.
fn read_header(body: &[u8]) -> (r: Result<(u32, u32, usize), String>)
    ensures
        match r {
            Ok(t) => header_of(body@) == Result::<(nat, nat, nat), Seq<char>>::Ok((t.0 as nat, t.1 as nat, t.2 as nat)),
            Err(e) => header_of(body@) == Result::<(nat, nat, nat), Seq<char>>::Err(e@),
        },
{
    if body.len() < 13 {
        return Err("short IHDR".to_owned());
    }
    let width: u32 = read_be32(body, 0);
    let height: u32 = read_be32(body, 4);
    let depth: u8 = body[8];
    let color: u8 = body[9];
    let interlace: u8 = body[12];
    if depth != 8 || interlace != 0 {
        let mut e = "only 8-bit non-interlaced PNGs are read (depth ".to_owned();
        e.append(decimal_text(depth as u64).as_str());
        e.append(", interlace ");
        e.append(decimal_text(interlace as u64).as_str());
        e.append(")");
        return Err(e);
    }
    let channels: usize = if color == 0 {
        1
    } else if color == 2 {
        3
    } else if color == 4 {
        2
    } else if color == 6 {
        4
    } else {
        let mut e = "unsupported PNG color type ".to_owned();
        e.append(decimal_text(color as u64).as_str());
        return Err(e);
    };
    Ok((width, height, channels))
}

/// What the chunks of a file hold: the size, the bytes per pixel, and the packed scan lines.
struct Parsed {
    width: u32,
    height: u32,
    channels: usize,
    packed: Vec<u8>,
}

impl Parsed {
    spec fn view(&self) -> Content {
        Content { width: self.width as nat, height: self.height as nat, channels: self.channels as nat, packed: self.packed@ }
    }
}

/// Walks the chunks after the signature.
fn read_chunks(bytes: &[u8]) -> (r: Result<Parsed, String>)
    requires
        bytes@.len() >= 8,
    ensures
        match r {
            Ok(p) => chunks(bytes@, 8, nothing_read()) == Result::<Content, Seq<char>>::Ok(p@),
            Err(e) => chunks(bytes@, 8, nothing_read()) == Result::<Content, Seq<char>>::Err(e@),
        },
        r is Ok ==> r->Ok_0.channels <= 4,
{
    let total: usize = bytes.len();
    let mut p = Parsed { width: 0, height: 0, channels: 0, packed: Vec::new() };
    let mut at: usize = 8;
    proof {
        assert(p@ =~= nothing_read());
    }
    while total - at >= 8
        invariant
            total == bytes@.len(),
            8 <= at <= total,
            p.channels <= 4,
            chunks(bytes@, at as int, p@) == chunks(bytes@, 8, nothing_read()),
        decreases total - at,
    {
        let length: usize = read_be32(bytes, at) as usize;
        let body_at: usize = at + 8;
        if length > total - body_at || total - body_at - length < 4 {
            return Err("truncated chunk".to_owned());
        }
        let next: usize = body_at + length + 4;
        let ghost body = bytes@.subrange(at + 8, at + 8 + length);
        proof {
            assert([0x49u8, 0x48, 0x44, 0x52]@ =~= ihdr());
            assert([0x49u8, 0x44, 0x41, 0x54]@ =~= idat());
            assert([0x49u8, 0x45, 0x4E, 0x44]@ =~= iend());
            assert(ihdr()[1] != idat()[1]);
            assert(ihdr()[1] != iend()[1]);
            assert(idat()[1] != iend()[1]);
        }
        if bytes_at(bytes, at + 4, [0x49u8, 0x48, 0x44, 0x52].as_slice()) {
            let copied = copy_range(bytes, body_at, body_at + length);
            match read_header(copied.as_slice()) {
                Ok(h) => {
                    p.width = h.0;
                    p.height = h.1;
                    p.channels = h.2;
                },
                Err(e) => {
                    return Err(e);
                },
            }
        } else if bytes_at(bytes, at + 4, [0x49u8, 0x44, 0x41, 0x54].as_slice()) {
            let ghost before = p@;
            push_range(&mut p.packed, bytes, body_at, body_at + length);
            proof {
                assert(p@ =~= Content { packed: before.packed + body, ..before });
            }
        } else if bytes_at(bytes, at + 4, [0x49u8, 0x45, 0x4E, 0x44].as_slice()) {
            return Ok(p);
        }
        at = next;
    }
    Ok(p)
}

/// Position `y * stride + x` is row `y`, column `x`.
proof fn row_and_column(y: int, x: int, stride: int)
    requires
        0 <= x < stride,
        0 <= y,
    ensures
        0 <= y * stride,
        (y * stride + x) / stride == y,
        (y * stride + x) % stride == x,
{
    vstd::arithmetic::div_mod::lemma_fundamental_div_mod_converse(y * stride + x, stride, y, x);
    vstd::arithmetic::mul::lemma_mul_nonnegative(y, stride);
}

/// A row's filter byte and its bytes lie inside scan lines that are long enough.
proof fn row_in_range(y: int, height: int, stride: int, len: int)
    requires
        0 <= y < height,
        0 <= stride,
        (stride + 1) * height <= len,
    ensures
        0 <= y * (stride + 1),
        y * (stride + 1) + stride + 1 <= len,
        y * stride <= y * (stride + 1),
{
    assert(0 <= y * (stride + 1) && y * (stride + 1) + (stride + 1) <= (stride + 1) * height && y * stride <= y * (stride + 1))
        by (nonlinear_arith)
        requires
            0 <= y < height,
            0 <= stride,
    ;
}

/// Undoes a scan-line filter on one byte.
fn unfilter_byte(filter: u8, byte: u8, left: u8, above: u8, corner: u8) -> (r: u8)
    requires
        filter <= 4,
    ensures
        r == filtered(filter, byte as int, left as int, above as int, corner as int),
{
    if filter == 0 {
        byte
    } else if filter == 1 {
        byte.wrapping_add(left)
    } else if filter == 2 {
        byte.wrapping_add(above)
    } else if filter == 3 {
        byte.wrapping_add(((left as u16 + above as u16) / 2) as u8)
    } else {
        byte.wrapping_add(paeth(left, above, corner))
    }
}

/// Undoes the filters of `height` rows.
fn unfilter(raw: &Vec<u8>, stride: usize, channels: usize, height: usize) -> (r: Result<Vec<u8>, u8>)
    requires
        0 < stride,
        1 <= channels <= stride,
        (stride + 1) * height <= raw@.len(),
    ensures
        match r {
            Ok(lines) => {
                &&& bad_filter(raw@, stride as int, 0, height as int) is None
                &&& lines@.len() == height * stride
                &&& forall|j: int| #![trigger lines@[j]] 0 <= j < lines@.len() ==> lines@[j] == unfiltered_at(raw@, stride as int, channels as int, j)
            },
            Err(f) => bad_filter(raw@, stride as int, 0, height as int) == Some(f),
        },
{
    let total: usize = raw.len();
    let mut lines: Vec<u8> = Vec::new();
    let mut y: usize = 0;
    while y < height
        invariant
            0 < stride,
            1 <= channels <= stride,
            (stride + 1) * height <= raw@.len() == total,
            y <= height,
            lines@.len() == y * stride,
            bad_filter(raw@, stride as int, y as int, height as int) == bad_filter(raw@, stride as int, 0, height as int),
            forall|j: int| #![trigger lines@[j]] 0 <= j < lines@.len() ==> lines@[j] == unfiltered_at(raw@, stride as int, channels as int, j),
        decreases height - y,
    {
        proof {
            row_in_range(y as int, height as int, stride as int, total as int);
        }
        let row_at: usize = y * (stride + 1);
        let filter: u8 = raw[row_at];
        if filter > 4 {
            return Err(filter);
        }
        let done: usize = y * stride;
        let mut x: usize = 0;
        while x < stride
            invariant
                0 < stride,
                1 <= channels <= stride,
                (stride + 1) * height <= raw@.len() == total,
                y < height,
                row_at == y * (stride + 1),
                done == y * stride,
                row_at + stride + 1 <= total,
                done <= row_at,
                filter == raw@[row_at as int],
                filter <= 4,
                x <= stride,
                lines@.len() == done + x,
                forall|j: int| #![trigger lines@[j]] 0 <= j < lines@.len() ==> lines@[j] == unfiltered_at(raw@, stride as int, channels as int, j),
            decreases stride - x,
        {
            let here: usize = done + x;
            let a: u8 = if x >= channels { lines[here - channels] } else { 0 };
            proof {
                if y > 0 {
                    assert(y * stride == (y - 1) * stride + stride) by (nonlinear_arith);
                    row_and_column(y - 1, x as int, stride as int);
                    if x >= channels {
                        row_and_column(y - 1, x - channels, stride as int);
                    }
                }
                if x >= channels {
                    row_and_column(y as int, x - channels, stride as int);
                }
                row_and_column(y as int, x as int, stride as int);
            }
            let b: u8 = if y > 0 { lines[here - stride] } else { 0 };
            let c: u8 = if y > 0 && x >= channels { lines[here - stride - channels] } else { 0 };
            let byte: u8 = raw[row_at + 1 + x];
            let value: u8 = unfilter_byte(filter, byte, a, b, c);
            proof {
                assert(unfiltered_at(raw@, stride as int, channels as int, here as int) == unfiltered(
                    raw@,
                    stride as int,
                    channels as int,
                    y as int,
                    x as int,
                ));
            }
            lines.push(value);
            x = x + 1;
        }
        proof {
            assert((y + 1) * stride == y * stride + stride) by (nonlinear_arith);
        }
        y = y + 1;
    }
    Ok(lines)
}


/// Sample `k` of pixel `i` stands in the pixel's row, `k` bytes into its column.
proof fn sample_position(i: int, width: int, channels: int, k: int)
    requires
        0 <= i,
        0 < width,
        0 <= k < channels,
    ensures
        (i * channels + k) / (width * channels) == i / width,
        (i * channels + k) % (width * channels) == (i % width) * channels + k,
        0 <= i % width,
        0 <= i / width,
{
    let y = i / width;
    let x = i % width;
    vstd::arithmetic::div_mod::lemma_fundamental_div_mod(i, width);
    vstd::arithmetic::div_mod::lemma_div_pos_is_pos(i, width);
    assert(0 <= x < width);
    assert(i * channels + k == y * (width * channels) + (x * channels + k)) by (nonlinear_arith)
        requires
            i == width * y + x,
    ;
    assert(0 <= x * channels + k < width * channels) by (nonlinear_arith)
        requires
            0 <= x < width,
            0 <= k < channels,
    ;
    row_and_column(y, x * channels + k, width * channels);
}

/// The sizes that fit once the scan lines are long enough.
proof fn sizes_fit(width: int, height: int, channels: int, len: int)
    requires
        1 <= width,
        1 <= height,
        1 <= channels,
        (width * channels + 1) * height <= len,
    ensures
        width * channels + 1 <= len,
        width <= width * channels,
        channels <= width * channels,
        height * (width * channels) <= len,
        width * height <= len,
        (width * height) * channels == height * (width * channels),
{
    assert(width <= width * channels && channels <= width * channels) by (nonlinear_arith)
        requires
            1 <= width,
            1 <= channels,
    ;
    let stride = width * channels;
    assert(stride + 1 <= (stride + 1) * height && height * stride <= (stride + 1) * height && width * height <= height * stride)
        by (nonlinear_arith)
        requires
            1 <= height,
            1 <= width <= stride,
    ;
    assert((width * height) * channels == height * (width * channels)) by (nonlinear_arith);
}

/// The image that unpacked scan lines hold: the filters undone, the samples widened to RGBA.
pub fn image_from_scan_lines(width: u32, height: u32, channels: usize, raw: &Vec<u8>) -> (r: Result<Image, String>)
    requires
        1 <= width,
        1 <= height,
        1 <= channels <= 4,
    ensures
        image_seen(r) == image_of(width as nat, height as nat, channels as nat, raw@),
{
    proof {
        assert(width * channels <= 0xFFFF_FFFF * 4) by (nonlinear_arith)
            requires
                0 <= width <= 0xFFFF_FFFF,
                0 <= channels <= 4,
        ;
        assert((width * channels + 1) * height <= (0xFFFF_FFFF * 4 + 1) * 0xFFFF_FFFF) by (nonlinear_arith)
            requires
                0 <= width * channels <= 0xFFFF_FFFF * 4,
                0 <= height <= 0xFFFF_FFFF,
        ;
    }
    let needed: u128 = (width as u128 * channels as u128 + 1) * height as u128;
    if (raw.len() as u128) < needed {
        return Err("short image data".to_owned());
    }
    proof {
        sizes_fit(width as int, height as int, channels as int, raw@.len() as int);
    }
    let stride: usize = width as usize * channels;
    let lines = match unfilter(raw, stride, channels, height as usize) {
        Ok(lines) => lines,
        Err(f) => {
            let mut e = "unknown scan-line filter ".to_owned();
            e.append(decimal_text(f as u64).as_str());
            return Err(e);
        },
    };
    let count: usize = width as usize * height as usize;
    let total: usize = lines.len();
    let mut rgba: Vec<u8> = Vec::new();
    let mut i: usize = 0;
    while i < count
        invariant
            1 <= width,
            1 <= channels <= 4,
            stride == width * channels,
            count == width * height,
            lines@.len() == total,
            total == count * channels,
            i <= count,
            rgba@.len() == i * 4,
            forall|j: int| #![trigger lines@[j]] 0 <= j < lines@.len() ==> lines@[j] == unfiltered_at(raw@, stride as int, channels as int, j),
            forall|j: int| #![trigger rgba@[j]] 0 <= j < rgba@.len() ==> rgba@[j] == rgba_byte(
                raw@,
                stride as int,
                channels as int,
                j / 4 / width as int,
                (j / 4 % width as int) * channels,
                j % 4,
            ),
        decreases count - i,
    {
        proof {
            assert(i * channels + channels <= count * channels) by (nonlinear_arith)
                requires
                    0 <= i < count,
                    1 <= channels,
            ;
            assert(0 <= i * channels) by (nonlinear_arith)
                requires
                    0 <= i,
                    1 <= channels,
            ;
            sample_position(i as int, width as int, channels as int, 0);
            if channels > 1 {
                sample_position(i as int, width as int, channels as int, 1);
            }
            if channels > 2 {
                sample_position(i as int, width as int, channels as int, 2);
            }
            if channels > 3 {
                sample_position(i as int, width as int, channels as int, 3);
            }
        }
        let p: usize = i * channels;
        let red: u8 = lines[p];
        let green: u8 = if channels >= 3 { lines[p + 1] } else { red };
        let blue: u8 = if channels >= 3 { lines[p + 2] } else { red };
        let alpha: u8 = if channels == 2 {
            lines[p + 1]
        } else if channels == 4 {
            lines[p + 3]
        } else {
            255
        };
        rgba.push(red);
        rgba.push(green);
        rgba.push(blue);
        rgba.push(alpha);
        i = i + 1;
    }
    let image = Image { width, height, rgba };
    proof {
        assert(width * height * 4 == count * 4);
        assert(image@.rgba =~= image_of(width as nat, height as nat, channels as nat, raw@)->Ok_0.rgba);
    }
    Ok(image)
}

/// Reads an 8-bit non-interlaced PNG (grayscale, grayscale with alpha, RGB or RGBA) into RGBA.
pub fn read_png(bytes: &[u8]) -> (r: Result<Image, String>)
    ensures
        image_seen(r) == decoded(bytes@),
{
    if bytes.len() < 8 {
        return Err("not a PNG".to_owned());
    }
    proof {
        assert([0x89u8, 0x50, 0x4E, 0x47, 0x0D, 0x0A, 0x1A, 0x0A]@ =~= signature());
        assert(bytes@.take(8) =~= bytes@.subrange(0, 8));
    }
    if !bytes_at(bytes, 0, [0x89u8, 0x50, 0x4E, 0x47, 0x0D, 0x0A, 0x1A, 0x0A].as_slice()) {
        return Err("not a PNG".to_owned());
    }
    let parsed = match read_chunks(bytes) {
        Ok(p) => p,
        Err(e) => {
            return Err(e);
        },
    };
    if parsed.width == 0 || parsed.height == 0 || parsed.channels == 0 {
        return Err("no image header".to_owned());
    }
    match zlib_unpack(parsed.packed.as_slice()) {
        Err(e) => {
            let mut text = "inflate: ".to_owned();
            text.append(e.as_str());
            Err(text)
        },
        Ok(raw) => image_from_scan_lines(parsed.width, parsed.height, parsed.channels, &raw),
    }
}


// ------------------------------------------------------------------------------ cropping, doubling

/// Copies pixel number `n` of `src` to the end of `out`.
fn push_pixel(out: &mut Vec<u8>, src: &Vec<u8>, n: usize)
    requires
        n * 4 + 4 <= src@.len(),
        old(out)@.len() % 4 == 0,
    ensures
        final(out)@.len() == old(out)@.len() + 4,
        nth_pixel(final(out)@, (old(out)@.len() / 4) as int) == nth_pixel(src@, n as int),
        forall|q: int| #![trigger nth_pixel(final(out)@, q)] 0 <= q < old(out)@.len() / 4 ==> nth_pixel(final(out)@, q) == nth_pixel(old(out)@, q),
{
    let total: usize = src.len();
    let from: usize = n * 4;
    let ghost before = out@;
    push_range(out, src.as_slice(), from, from + 4);
    proof {
        assert(nth_pixel(out@, (before.len() / 4) as int) =~= nth_pixel(src@, n as int));
        assert forall|q: int| #![trigger nth_pixel(out@, q)] 0 <= q < before.len() / 4 implies nth_pixel(out@, q) == nth_pixel(before, q) by {
            assert(nth_pixel(out@, q) =~= nth_pixel(before, q));
        }
    }
}

/// `a` capped at `b`.
pub open spec fn at_most(a: int, b: int) -> int {
    if a < b { a } else { b }
}

/// How long a side of a cut is: `from` and `length` clamped to a side of the image.
pub open spec fn clipped(from: int, length: int, side: int) -> int {
    at_most(length, side - at_most(from, side))
}

/// The `(x, y, w, h)` sub-image, clamped to `image`. A rectangle that is empty or off the image yields an
/// image of no width and no height.
pub fn crop(image: &Image, x: u32, y: u32, w: u32, h: u32) -> (r: Image)
    requires
        image@.covers(),
    ensures
        ({
            let cw = clipped(x as int, w as int, image.width as int);
            let ch = clipped(y as int, h as int, image.height as int);
            if cw == 0 || ch == 0 {
                r.width == 0 && r.height == 0 && r.rgba@.len() == 0
            } else {
                r.width == cw && r.height == ch
            }
        }),
        r@.rgba.len() == r.width * r.height * 4,
        forall|i: int, j: int|
            #![trigger r@.at(i, j)]
            0 <= i < r.width && 0 <= j < r.height ==> r@.at(i, j) == image@.at(
                at_most(x as int, image.width as int) + i,
                at_most(y as int, image.height as int) + j,
            ),
{
    let x0: u32 = if x < image.width { x } else { image.width };
    let y0: u32 = if y < image.height { y } else { image.height };
    let cw: u32 = if w < image.width - x0 { w } else { image.width - x0 };
    let ch: u32 = if h < image.height - y0 { h } else { image.height - y0 };
    if cw == 0 || ch == 0 {
        let nothing = Image { width: 0, height: 0, rgba: Vec::new() };
        proof {
            assert(nothing.width * nothing.height * 4 == 0) by (nonlinear_arith)
                requires
                    nothing.width == 0,
            ;
        }
        return nothing;
    }
    let total: usize = image.rgba.len();
    let mut rgba: Vec<u8> = Vec::new();
    let mut row: u32 = 0;
    while row < ch
        invariant
            image@.covers(),
            total == image.rgba@.len(),
            x0 + cw <= image.width,
            y0 + ch <= image.height,
            row <= ch,
            rgba@.len() == row * cw * 4,
            forall|q: int|
                #![trigger nth_pixel(rgba@, q)]
                0 <= q < row * cw ==> nth_pixel(rgba@, q) == image@.at(x0 + q % cw as int, y0 + q / cw as int),
        decreases ch - row,
    {
        let mut col: u32 = 0;
        while col < cw
            invariant
                image@.covers(),
                total == image.rgba@.len(),
                x0 + cw <= image.width,
                y0 + ch <= image.height,
                row < ch,
                col <= cw,
                rgba@.len() == (row * cw + col) * 4,
                forall|q: int|
                    #![trigger nth_pixel(rgba@, q)]
                    0 <= q < row * cw + col ==> nth_pixel(rgba@, q) == image@.at(x0 + q % cw as int, y0 + q / cw as int),
            decreases cw - col,
        {
            proof {
                pixel_in_range(image.width as int, image.height as int, x0 + col, y0 + row, total as int);
                row_and_column(row as int, col as int, cw as int);
            }
            let n: usize = (y0 as usize + row as usize) * image.width as usize + (x0 as usize + col as usize);
            push_pixel(&mut rgba, &image.rgba, n);
            col = col + 1;
        }
        proof {
            assert((row + 1) * cw == row * cw + cw) by (nonlinear_arith);
        }
        row = row + 1;
    }
    let r = Image { width: cw, height: ch, rgba };
    proof {
        assert(cw * ch == ch * cw) by (nonlinear_arith);
        assert forall|i: int, j: int| #![trigger r@.at(i, j)] 0 <= i < cw && 0 <= j < ch implies r@.at(i, j) == image@.at(x0 + i, y0 + j) by {
            row_and_column(j, i, cw as int);
            assert(j * cw + i < ch * cw) by (nonlinear_arith)
                requires
                    0 <= i < cw,
                    0 <= j < ch,
            ;
            assert(r@.at(i, j) == nth_pixel(rgba@, j * cw + i));
        }
    }
    r
}

/// Nearest-neighbour double: every pixel becomes a square of four.
pub fn upscale2x(image: &Image) -> (r: Image)
    requires
        image@.covers(),
        image.width * 2 <= u32::MAX,
        image.height * 2 <= u32::MAX,
    ensures
        r.width == image.width * 2,
        r.height == image.height * 2,
        r@.rgba.len() == r.width * r.height * 4,
        forall|i: int, j: int|
            #![trigger r@.at(i, j)]
            0 <= i < r.width && 0 <= j < r.height ==> r@.at(i, j) == image@.at(i / 2, j / 2),
{
    let w: u32 = image.width * 2;
    let h: u32 = image.height * 2;
    let total: usize = image.rgba.len();
    let mut rgba: Vec<u8> = Vec::new();
    let mut y: u32 = 0;
    while y < h
        invariant
            image@.covers(),
            total == image.rgba@.len(),
            w == image.width * 2,
            h == image.height * 2,
            y <= h,
            rgba@.len() == y * w * 4,
            forall|q: int| #![trigger nth_pixel(rgba@, q)] 0 <= q < y * w ==> nth_pixel(rgba@, q) == image@.at(q % w as int / 2, q / w as int / 2),
        decreases h - y,
    {
        let mut x: u32 = 0;
        while x < w
            invariant
                image@.covers(),
                total == image.rgba@.len(),
                w == image.width * 2,
                h == image.height * 2,
                y < h,
                x <= w,
                rgba@.len() == (y * w + x) * 4,
                forall|q: int|
                    #![trigger nth_pixel(rgba@, q)]
                    0 <= q < y * w + x ==> nth_pixel(rgba@, q) == image@.at(q % w as int / 2, q / w as int / 2),
            decreases w - x,
        {
            proof {
                pixel_in_range(image.width as int, image.height as int, (x / 2) as int, (y / 2) as int, total as int);
                row_and_column(y as int, x as int, w as int);
            }
            let n: usize = (y / 2) as usize * image.width as usize + (x / 2) as usize;
            push_pixel(&mut rgba, &image.rgba, n);
            x = x + 1;
        }
        proof {
            assert((y + 1) * w == y * w + w) by (nonlinear_arith);
        }
        y = y + 1;
    }
    let r = Image { width: w, height: h, rgba };
    proof {
        assert(w * h == h * w) by (nonlinear_arith);
        assert forall|i: int, j: int| #![trigger r@.at(i, j)] 0 <= i < w && 0 <= j < h implies r@.at(i, j) == image@.at(i / 2, j / 2) by {
            row_and_column(j, i, w as int);
            assert(j * w + i < h * w) by (nonlinear_arith)
                requires
                    0 <= i < w,
                    0 <= j < h,
            ;
            assert(r@.at(i, j) == nth_pixel(rgba@, j * w + i));
        }
    }
    r
}


// ------------------------------------------------------------------------------ reading back what was written

/// A chunk that stands at `at` is read as the chunk that was written.
proof fn chunk_read_back(bytes: Seq<u8>, at: int, kind: Seq<u8>, body: Seq<u8>)
    requires
        kind.len() == 4,
        body.len() < 0x1_0000_0000,
        0 <= at,
        at + 12 + body.len() <= bytes.len(),
        bytes.subrange(at, at + 12 + body.len()) == chunk_bytes(kind, body),
    ensures
        be32_at(bytes, at) == body.len(),
        bytes.subrange(at + 4, at + 8) == kind,
        bytes.subrange(at + 8, at + 8 + body.len()) == body,
{
    let c = chunk_bytes(kind, body);
    let b = bytes.subrange(at, at + 12 + body.len());
    assert(body.len() % 0x1_0000_0000 == body.len());
    assert(bytes.subrange(at, at + 4) =~= b.subrange(0, 4));
    assert(c.subrange(0, 4) =~= be32(body.len()));
    crate::bytes::be32_read_back(body.len(), bytes, at);
    assert(bytes.subrange(at + 4, at + 8) =~= b.subrange(4, 8));
    assert(c.subrange(4, 8) =~= kind);
    assert(bytes.subrange(at + 8, at + 8 + body.len()) =~= b.subrange(8, 8 + body.len() as int));
    assert(c.subrange(8, 8 + body.len() as int) =~= body);
}

/// How long the scan lines are, and what stands where in them.
proof fn scan_line_bytes(p: Picture, rows: nat)
    requires
        rows <= p.height,
        p.covers(),
    ensures
        scan_lines(p, rows).len() == rows * (p.width * 4 + 1),
        forall|y: int|
            #![trigger scan_lines(p, rows)[y * (p.width * 4 + 1)]]
            0 <= y < rows ==> scan_lines(p, rows)[y * (p.width * 4 + 1)] == 0,
        forall|y: int, x: int|
            #![trigger scan_lines(p, rows)[y * (p.width * 4 + 1) + 1 + x]]
            0 <= y < rows && 0 <= x < p.width * 4 ==> scan_lines(p, rows)[y * (p.width * 4 + 1) + 1 + x] == p.rgba[y * (p.width * 4) + x],
    decreases rows,
{
    let stride = p.width * 4;
    if rows > 0 {
        let last = (rows - 1) as nat;
        scan_line_bytes(p, last);
        let w = p.width as int;
        let h = p.height as int;
        assert(w * h * 4 == (w * 4) * h) by (nonlinear_arith);
        assert(0 <= last * stride && last * stride + stride <= stride * h) by (nonlinear_arith)
            requires
                0 <= stride,
                0 <= last < h,
        ;
        assert(rows * (stride + 1) == last * (stride + 1) + stride + 1) by (nonlinear_arith)
            requires
                rows == last + 1,
        ;
        let s = scan_lines(p, rows);
        let t = scan_lines(p, last);
        assert(s.len() == t.len() + 1 + stride);
        assert forall|y: int| #![trigger s[y * (stride + 1)]] 0 <= y < rows implies s[y * (stride + 1)] == 0 by {
            if y < last {
                assert(0 <= y * (stride + 1) < last * (stride + 1)) by (nonlinear_arith)
                    requires
                        0 <= y < last,
                        0 <= stride,
                ;
                assert(s[y * (stride + 1)] == t[y * (stride + 1)]);
            }
        }
        assert forall|y: int, x: int| #![trigger s[y * (stride + 1) + 1 + x]] 0 <= y < rows && 0 <= x < stride implies s[y * (stride + 1) + 1 + x]
            == p.rgba[y * stride + x] by {
            if y < last {
                assert(0 <= y * (stride + 1) && y * (stride + 1) + 1 + x < last * (stride + 1)) by (nonlinear_arith)
                    requires
                        0 <= y < last,
                        0 <= x < stride,
                ;
                assert(s[y * (stride + 1) + 1 + x] == t[y * (stride + 1) + 1 + x]);
            }
        }
    }
}

/// With filter 0 on every row nothing is refused, and every byte stands for itself.
proof fn unfiltered_scan_lines(p: Picture, y: int, x: int)
    requires
        p.covers(),
        0 <= y < p.height,
        0 <= x < p.width * 4,
    ensures
        unfiltered(scan_lines(p, p.height), (p.width * 4) as int, 4, y, x) == p.rgba[y * (p.width * 4) + x],
{
    scan_line_bytes(p, p.height);
    let raw = scan_lines(p, p.height);
    assert(raw[y * (p.width * 4 + 1)] == 0);
    assert(raw[y * (p.width * 4 + 1) + 1 + x] == p.rgba[y * (p.width * 4) + x]);
}

proof fn no_bad_filter(p: Picture, y: int)
    requires
        p.covers(),
        0 <= y <= p.height,
    ensures
        bad_filter(scan_lines(p, p.height), (p.width * 4) as int, y, p.height as int) is None,
    decreases p.height - y,
{
    if y < p.height {
        scan_line_bytes(p, p.height);
        assert(scan_lines(p, p.height)[y * (p.width * 4 + 1)] == 0);
        no_bad_filter(p, y + 1);
    }
}

/// The scan lines of an image hold that image.
proof fn scan_lines_hold_the_image(p: Picture)
    requires
        p.covers(),
        1 <= p.width,
    ensures
        image_of(p.width, p.height, 4, scan_lines(p, p.height)) == Result::<Picture, Seq<char>>::Ok(
            Picture { rgba: p.rgba.take((p.width * p.height * 4) as int), ..p },
        ),
{
    let raw = scan_lines(p, p.height);
    let stride = (p.width * 4) as int;
    let w = p.width as int;
    scan_line_bytes(p, p.height);
    no_bad_filter(p, 0);
    assert((stride + 1) * p.height == p.height * (stride + 1)) by (nonlinear_arith);
    let got = image_of(p.width, p.height, 4, raw)->Ok_0;
    let want = p.rgba.take((p.width * p.height * 4) as int);
    assert forall|i: int| 0 <= i < p.width * p.height * 4 implies got.rgba[i] == want[i] by {
        let n = i / 4;
        let y = n / w;
        let x = n % w;
        vstd::arithmetic::div_mod::lemma_fundamental_div_mod(n, w);
        vstd::arithmetic::div_mod::lemma_div_pos_is_pos(n, w);
        assert(y < p.height) by (nonlinear_arith)
            requires
                n == w * y + x,
                0 <= x,
                n < w * p.height,
                0 < w,
        ;
        assert(y * stride + (x * 4 + i % 4) == i) by (nonlinear_arith)
            requires
                n == w * y + x,
                stride == w * 4,
                i == n * 4 + i % 4,
        ;
        unfiltered_scan_lines(p, y, x * 4 + i % 4);
    }
    assert(got.rgba =~= want);
}

/// The three chunks of a file stand one after the other.
proof fn file_layout(width: nat, height: nat, packed: Seq<u8>)
    requires
        packed.len() < 0x1_0000_0000,
    ensures
        ({
            let file = png_file(width, height, packed);
            let end = 45 + packed.len() as int;
            &&& header_bytes(width, height).len() == 13
            &&& file.len() == end + 12
            &&& file.take(8) == signature()
            &&& be32_at(file, 8) == 13
            &&& file.subrange(12, 16) == ihdr()
            &&& file.subrange(16, 29) == header_bytes(width, height)
            &&& be32_at(file, 33) == packed.len()
            &&& file.subrange(37, 41) == idat()
            &&& file.subrange(41, 41 + packed.len() as int) == packed
            &&& be32_at(file, end) == 0
            &&& file.subrange(end + 4, end + 8) == iend()
        }),
{
    let header = header_bytes(width, height);
    let file = png_file(width, height, packed);
    let a = chunk_bytes(ihdr(), header);
    let b = chunk_bytes(idat(), packed);
    let c = chunk_bytes(iend(), Seq::empty());
    let end = 45 + packed.len() as int;
    assert(header.len() == 13);
    assert(a.len() == 25 && b.len() == 12 + packed.len() && c.len() == 12);
    assert(file.take(8) =~= signature());
    assert(file.subrange(8, 33) =~= a);
    assert(file.subrange(33, 33 + 12 + packed.len() as int) =~= b);
    assert(file.subrange(end, end + 12) =~= c);
    chunk_read_back(file, 8, ihdr(), header);
    chunk_read_back(file, 33, idat(), packed);
    chunk_read_back(file, end, iend(), Seq::empty());
}

/// The header chunk is read as it was written.
proof fn header_read_back(width: nat, height: nat)
    requires
        width < 0x1_0000_0000,
        height < 0x1_0000_0000,
    ensures
        header_of(header_bytes(width, height)) == Result::<(nat, nat, nat), Seq<char>>::Ok((width, height, 4)),
{
    let header = header_bytes(width, height);
    assert(header.subrange(0, 4) =~= be32(width));
    assert(header.subrange(4, 8) =~= be32(height));
    crate::bytes::be32_read_back(width, header, 0);
    crate::bytes::be32_read_back(height, header, 4);
}

/// One chunk of a known kind is read and the next one follows.
proof fn chunk_step(file: Seq<u8>, at: int, body: Seq<u8>, so_far: Content)
    requires
        0 <= at,
        be32_at(file, at) == body.len(),
        at + 12 + body.len() <= file.len(),
        file.subrange(at + 8, at + 8 + body.len()) == body,
    ensures
        file.subrange(at + 4, at + 8) == ihdr() && header_of(body) is Ok ==> chunks(file, at, so_far) == chunks(
            file,
            at + 12 + body.len(),
            Content {
                width: header_of(body)->Ok_0.0,
                height: header_of(body)->Ok_0.1,
                channels: header_of(body)->Ok_0.2,
                packed: so_far.packed,
            },
        ),
        file.subrange(at + 4, at + 8) == idat() ==> chunks(file, at, so_far) == chunks(
            file,
            at + 12 + body.len(),
            Content { packed: so_far.packed + body, ..so_far },
        ),
        file.subrange(at + 4, at + 8) == iend() ==> chunks(file, at, so_far) == Result::<Content, Seq<char>>::Ok(so_far),
{
    assert(ihdr()[1] != idat()[1]);
    assert(ihdr()[1] != iend()[1]);
    assert(idat()[1] != iend()[1]);
}

/// The chunks of a file are read as they were written.
proof fn chunks_read_back(width: nat, height: nat, packed: Seq<u8>)
    requires
        width < 0x1_0000_0000,
        height < 0x1_0000_0000,
        packed.len() < 0x1_0000_0000,
    ensures
        chunks(png_file(width, height, packed), 8, nothing_read()) == Result::<Content, Seq<char>>::Ok(
            Content { width, height, channels: 4, packed },
        ),
{
    let file = png_file(width, height, packed);
    let header = header_bytes(width, height);
    let end = 45 + packed.len() as int;
    let with_header = Content { width, height, channels: 4, packed: Seq::empty() };
    let full = Content { width, height, channels: 4, packed };
    file_layout(width, height, packed);
    header_read_back(width, height);
    assert(Seq::<u8>::empty() + packed =~= packed);
    chunk_step(file, 8, header, nothing_read());
    chunk_step(file, 33, packed, with_header);
    assert(file.subrange(end + 8, end + 8) =~= Seq::<u8>::empty());
    chunk_step(file, end, Seq::empty(), full);
}

/// Reading a file that [`write_png`] made gives the image back: the same size, and the bytes of its
/// `width * height` pixels. (An image without pixels makes a file without a usable header, and packed
/// scan lines of 4 GiB or more do not fit the length field of a chunk.)
pub proof fn round_trip(p: Picture)
    requires
        p.covers(),
        1 <= p.width < 0x1_0000_0000,
        1 <= p.height < 0x1_0000_0000,
        encoded(p) is Ok,
        zlib_packed(scan_lines(p, p.height))->Ok_0.len() < 0x1_0000_0000,
        crate::codec::unpacks_to(zlib_packed(scan_lines(p, p.height))->Ok_0, scan_lines(p, p.height)),
    ensures
        decoded(encoded(p)->Ok_0) == Result::<Picture, Seq<char>>::Ok(Picture { rgba: p.rgba.take((p.width * p.height * 4) as int), ..p }),
{
    let packed = zlib_packed(scan_lines(p, p.height))->Ok_0;
    file_layout(p.width, p.height, packed);
    chunks_read_back(p.width, p.height, packed);
    scan_lines_hold_the_image(p);
}

// ------------------------------------------------------------------------------ the format

/// A file begins as every PNG does, and its header says the size, 8 bits, RGBA, and nothing out of the
/// ordinary; it ends with the empty end chunk. Numbers have their most significant byte first.
pub proof fn a_file_begins_and_ends_as_a_png(width: nat, height: nat, packed: Seq<u8>)
    requires
        width < 0x1_0000_0000,
        height < 0x1_0000_0000,
        packed.len() < 0x1_0000_0000,
    ensures
        ({
            let file = png_file(width, height, packed);
            let n = file.len() as int;
            &&& file.take(16) == seq![0x89u8, 0x50, 0x4E, 0x47, 0x0D, 0x0A, 0x1A, 0x0A, 0, 0, 0, 13, 0x49, 0x48, 0x44, 0x52]
            &&& file[16] * 0x100_0000 + file[17] * 0x1_0000 + file[18] * 0x100 + file[19] == width
            &&& file[20] * 0x100_0000 + file[21] * 0x1_0000 + file[22] * 0x100 + file[23] == height
            &&& file.subrange(24, 29) == seq![8u8, 6, 0, 0, 0]
            &&& file[33] * 0x100_0000 + file[34] * 0x1_0000 + file[35] * 0x100 + file[36] == packed.len()
            &&& file.subrange(37, 41) == seq![0x49u8, 0x44, 0x41, 0x54]
            &&& file.subrange(41, 41 + packed.len() as int) == packed
            &&& n == 57 + packed.len()
            &&& file.subrange(n - 12, n - 4) == seq![0u8, 0, 0, 0, 0x49, 0x45, 0x4E, 0x44]
        }),
{
    let file = png_file(width, height, packed);
    let n = file.len() as int;
    let header = header_bytes(width, height);
    assert(be32(13) =~= seq![0u8, 0, 0, 13]);
    assert(be32(0) =~= seq![0u8, 0, 0, 0]);
    assert(header.len() == 13);
    assert((packed.len() % 0x1_0000_0000) as nat == packed.len());
    assert(file.take(16) =~= seq![0x89u8, 0x50, 0x4E, 0x47, 0x0D, 0x0A, 0x1A, 0x0A, 0, 0, 0, 13, 0x49, 0x48, 0x44, 0x52]);
    assert(file.subrange(16, 20) =~= be32(width));
    crate::bytes::be32_read_back(width, file, 16);
    assert(file.subrange(20, 24) =~= be32(height));
    crate::bytes::be32_read_back(height, file, 20);
    assert(file.subrange(24, 29) =~= seq![8u8, 6, 0, 0, 0]);
    assert(file.subrange(33, 37) =~= be32(packed.len()));
    crate::bytes::be32_read_back(packed.len(), file, 33);
    assert(file.subrange(37, 41) =~= seq![0x49u8, 0x44, 0x41, 0x54]);
    assert(file.subrange(41, 41 + packed.len() as int) =~= packed);
    assert(file.subrange(n - 12, n - 4) =~= seq![0u8, 0, 0, 0, 0x49, 0x45, 0x4E, 0x44]);
}

/// The checksum of a chunk is of its kind and its body, and stands behind them.
pub proof fn a_chunk_ends_with_its_checksum(kind: Seq<u8>, body: Seq<u8>)
    requires
        kind.len() == 4,
        body.len() < 0x1_0000_0000,
    ensures
        ({
            let c = chunk_bytes(kind, body);
            let n = c.len() as int;
            &&& n == 12 + body.len()
            &&& c.subrange(4, n - 4) == kind + body
            &&& c[n - 4] * 0x100_0000 + c[n - 3] * 0x1_0000 + c[n - 2] * 0x100 + c[n - 1] == crc32(kind + body)
        }),
{
    let c = chunk_bytes(kind, body);
    let n = c.len() as int;
    assert(c.subrange(4, n - 4) =~= kind + body);
    assert(c.subrange(n - 4, n) =~= be32(crc32(kind + body) as nat));
    crate::bytes::be32_read_back(crc32(kind + body) as nat, c, n - 4);
}

/// The predictor takes the neighbour that is nearest to left plus above minus the corner, the left one
/// before the one above before the corner.
pub proof fn the_predictor_is_the_nearest_neighbour(left: int, above: int, corner: int)
    ensures
        ({
            let p = left + above - corner;
            let r = paeth_of(left, above, corner);
            let d = if r < p { p - r } else { r - p };
            let (to_left, to_above, to_corner) = (
                if left < p { p - left } else { left - p },
                if above < p { p - above } else { above - p },
                if corner < p { p - corner } else { corner - p },
            );
            &&& r == left || r == above || r == corner
            &&& d <= to_left && d <= to_above && d <= to_corner
            &&& to_left == d ==> r == left
            &&& to_left > d && to_above == d ==> r == above
        }),
{
}

/// A filter is undone: what was stored is the difference to the byte's left, to the one above, to the mean
/// of the two or to the predictor, and adding that up again gives the byte back.
pub proof fn a_filter_is_undone(value: int, left: int, above: int, corner: int)
    requires
        0 <= value < 256,
        0 <= left < 256,
        0 <= above < 256,
        0 <= corner < 256,
    ensures
        filtered(0, value, left, above, corner) == value,
        filtered(1, (value - left) % 256, left, above, corner) == value,
        filtered(2, (value - above) % 256, left, above, corner) == value,
        filtered(3, (value - (left + above) / 2) % 256, left, above, corner) == value,
        filtered(4, (value - paeth_of(left, above, corner)) % 256, left, above, corner) == value,
{
    restored(value, left);
    restored(value, above);
    restored(value, (left + above) / 2);
    let p = paeth_of(left, above, corner);
    assert(p == left || p == above || p == corner);
    restored(value, p);
}

proof fn restored(value: int, by: int)
    requires
        0 <= value < 256,
        0 <= by < 256,
    ensures
        ((value - by) % 256 + by) % 256 == value,
{
    if value >= by {
        assert((value - by) % 256 == value - by);
    } else {
        assert((value - by) % 256 == value - by + 256);
    }
}

/// Rows that were not filtered hold the bytes as they are.
pub proof fn an_unfiltered_row_holds_its_bytes(raw: Seq<u8>, stride: int, channels: int, y: int, x: int)
    requires
        0 <= y,
        0 <= x < stride,
        channels > 0,
        raw[y * (stride + 1)] == 0,
    ensures
        unfiltered(raw, stride, channels, y, x) == raw[y * (stride + 1) + 1 + x],
{
}

/// The samples of a pixel: gray stands for all three colors, and a pixel without alpha is opaque.
pub proof fn samples_become_colors(raw: Seq<u8>, stride: int, y: int, x: int, color: u8)
    ensures
        channels_of(0) == Some(1nat) && channels_of(2) == Some(3nat) && channels_of(4) == Some(2nat) && channels_of(6) == Some(4nat),
        color != 0 && color != 2 && color != 4 && color != 6 ==> channels_of(color) is None,
        forall|c: int| 0 <= c < 3 ==> #[trigger] rgba_byte(raw, stride, 1, y, x, c) == unfiltered(raw, stride, 1, y, x) as u8,
        rgba_byte(raw, stride, 1, y, x, 3) == 255,
        forall|c: int| 0 <= c < 3 ==> #[trigger] rgba_byte(raw, stride, 2, y, x, c) == unfiltered(raw, stride, 2, y, x) as u8,
        rgba_byte(raw, stride, 2, y, x, 3) == unfiltered(raw, stride, 2, y, x + 1) as u8,
        forall|c: int| 0 <= c < 3 ==> #[trigger] rgba_byte(raw, stride, 3, y, x, c) == unfiltered(raw, stride, 3, y, x + c) as u8,
        rgba_byte(raw, stride, 3, y, x, 3) == 255,
        forall|c: int| 0 <= c < 4 ==> #[trigger] rgba_byte(raw, stride, 4, y, x, c) == unfiltered(raw, stride, 4, y, x + c) as u8,
{
}

/// A cut reaches as far as it was asked to and the image does; beyond the image nothing is left of it.
pub proof fn a_cut_ends_with_the_image(from: int, length: int, side: int)
    requires
        0 <= from,
        0 <= length,
        0 <= side,
    ensures
        from + length <= side ==> clipped(from, length, side) == length,
        from <= side < from + length ==> clipped(from, length, side) == side - from,
        from >= side ==> clipped(from, length, side) == 0,
        at_most(from, side) == (if from <= side { from } else { side }),
{
}

} // verus!
