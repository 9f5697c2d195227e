//! Rounded corners for the native chrome: where the corner masks and overlay cards go and what they
//! are made of.
//!
//! Panes get four corner masks each ([`mask_placement`]), the page inside the Peek card four more
//! ([`peek_mask_placement`]); an overlay card is assembled from corner images, border and shadow strips
//! and a filled middle ([`build_card`]). Every image is a multiple of 4 DIP, so that it has an exact
//! bitmap at every scale ([`exact_scales`]), and a card's rectangle is snapped to the device-pixel grid
//! ([`snap_rect`]).
use crate::counter::{advance, advanced, bump, next_number};
use crate::rect::{in_i32, larger, Rect};
use crate::text::{hex, hex_text, join2};
use vstd::prelude::*;

verus! {

// ------------------------------------------------------------------------------ tokens

/// Content card radius (DIP), measured at the web page edge (inside the wrapper ring).
pub const CONTENT_RADIUS: i32 = 10;

/// Wrapper ring width: the focused split pane's accent ring.
pub const CONTENT_RING: i32 = 2;

/// How far a content mask reaches into a native frame gap (DIP).
pub const MASK_BLEED: i32 = 4;

/// Overlay card radius.
pub const OVERLAY_RADIUS: i32 = 12;

/// Soft shadow around overlay cards.
pub const OVERLAY_SHADOW: i32 = 8;

/// Fill between a card's side border and its page (with the border: 4 DIP).
pub const OVERLAY_PAD: i32 = 3;

/// Find bar radius.
pub const FIND_RADIUS: i32 = 8;

/// Toast radius.
pub const TOAST_RADIUS: i32 = 16;

/// The floating sidebar's shadow: it stays clear of the window's 4 DIP resize bands.
pub const SIDEBAR_SHADOW: i32 = 4;

/// Peek's side fill: with the border, 12 DIP beside the page, like above and below it.
pub const PEEK_PAD: i32 = 11;

/// Radius of the web page inside the Peek card.
pub const PEEK_PAGE_RADIUS: i32 = 8;

/// Pane slots with corner masks (split view has at most 4 panes).
pub const SLOTS: usize = 4;

/// Peak shadow alpha at a card's edge, light and dark (hundredths).
pub const SHADOW_PEAK_LIGHT: u32 = 16;

pub const SHADOW_PEAK_DARK: u32 = 34;

/// Corner images kept at once.
pub const IMAGE_CACHE_MAX: usize = 96;

// ------------------------------------------------------------------------------ colors

/// The native chrome colors (opaque ARGB) of the active space.
#[derive(Clone, Copy, PartialEq, Eq, Debug, Structural)]
pub struct ChromeColors {
    pub frame: u32,
    pub accent: u32,
    pub surface: u32,
    /// Border over surface.
    pub border: u32,
    /// Border over frame.
    pub frame_border: u32,
    pub dark: bool,
}

impl Default for ChromeColors {
    /// The colors before the first space is known.
    fn default() -> (r: ChromeColors)
        ensures
            r == (ChromeColors {
                frame: 0xFF26_222E,
                accent: 0xFF7B_5CD6,
                surface: 0xFFFF_FFFF,
                border: 0xFFE6_E6E6,
                frame_border: 0xFFD8_D2DC,
                dark: false,
            }),
    {
        ChromeColors {
            frame: 0xFF26_222E,
            accent: 0xFF7B_5CD6,
            surface: 0xFFFF_FFFF,
            border: 0xFFE6_E6E6,
            frame_border: 0xFFD8_D2DC,
            dark: false,
        }
    }
}

impl ChromeColors {
    pub open spec fn peak(self) -> u32 {
        if self.dark { SHADOW_PEAK_DARK } else { SHADOW_PEAK_LIGHT }
    }

    /// Peak shadow alpha (hundredths).
    pub fn shadow_peak(&self) -> (r: u32)
        ensures
            r == self.peak(),
    {
        if self.dark { SHADOW_PEAK_DARK } else { SHADOW_PEAK_LIGHT }
    }
}

// ------------------------------------------------------------------------------ corner images

#[derive(Clone, Copy, PartialEq, Eq, Debug, Structural)]
pub enum Corner {
    TopLeft,
    TopRight,
    BottomLeft,
    BottomRight,
}

impl Corner {
    /// The corner is on the right side.
    pub open spec fn is_right(self) -> bool {
        self == Corner::TopRight || self == Corner::BottomRight
    }

    /// The corner is on the bottom side.
    pub open spec fn is_bottom(self) -> bool {
        self == Corner::BottomLeft || self == Corner::BottomRight
    }

    fn right(self) -> (r: bool)
        ensures
            r == self.is_right(),
    {
        match self {
            Corner::TopRight => true,
            Corner::BottomRight => true,
            _ => false,
        }
    }

    fn bottom(self) -> (r: bool)
        ensures
            r == self.is_bottom(),
    {
        match self {
            Corner::BottomLeft => true,
            Corner::BottomRight => true,
            _ => false,
        }
    }
}

/// The four corners in drawing order.
pub open spec fn corner_number(k: int) -> Corner {
    if k == 0 {
        Corner::TopLeft
    } else if k == 1 {
        Corner::TopRight
    } else if k == 2 {
        Corner::BottomLeft
    } else {
        Corner::BottomRight
    }
}

fn nth_corner(k: usize) -> (r: Corner)
    ensures
        r == corner_number(k as int),
{
    if k == 0 {
        Corner::TopLeft
    } else if k == 1 {
        Corner::TopRight
    } else if k == 2 {
        Corner::BottomLeft
    } else {
        Corner::BottomRight
    }
}

/// One corner image, described in the top-left orientation in DIP: `w` by `h`, arcs centered at the
/// bottom-right corner. From the center outwards: `inside` up to `r_in`, `ring` up to `r_out`, then
/// `outside`, or (when `shadow` > 0) a black falloff over `shadow` DIP that starts at `shadow_peak`
/// hundredths of alpha. Colors are ARGB (not premultiplied).
#[derive(Clone, Copy, PartialEq, Eq, Debug, Structural)]
pub struct Tile {
    pub w: i32,
    pub h: i32,
    pub r_in: i32,
    pub r_out: i32,
    pub inside: u32,
    pub ring: u32,
    pub outside: u32,
    pub shadow: i32,
    pub shadow_peak: u32,
}

/// Where pixel `(x, y)` of the top-left orientation goes in the image of a corner `pw` by `ph` pixels
/// large: mirrored left to right for a right corner, top to bottom for a bottom corner.
pub fn mirrored(corner: Corner, x: i32, y: i32, pw: i32, ph: i32) -> (r: (i32, i32))
    requires
        0 <= x < pw,
        0 <= y < ph,
    ensures
        r.0 == (if corner.is_right() { pw - 1 - x } else { x as int }),
        r.1 == (if corner.is_bottom() { ph - 1 - y } else { y as int }),
        0 <= r.0 < pw,
        0 <= r.1 < ph,
{
    let ox: i32 = if corner.right() { pw - 1 - x } else { x };
    let oy: i32 = if corner.bottom() { ph - 1 - y } else { y };
    (ox, oy)
}

/// The scale factors an image may carry a bitmap for, in quarters (100 % is 4).
pub open spec fn scales() -> Seq<i32> {
    seq![4i32, 5, 6, 7, 8, 9, 10, 12, 14]
}

/// A length of `v` DIP is a whole number of pixels at `quarters` quarters.
pub open spec fn is_whole(v: int, quarters: int) -> bool {
    (v * quarters) % 4 == 0
}

/// The scales of the first `n` at which both sides of a tile are whole.
pub open spec fn exact_up_to(tile: Tile, n: int) -> Seq<i32>
    decreases n,
{
    if n <= 0 {
        Seq::empty()
    } else {
        let q = scales()[n - 1];
        if is_whole(tile.w as int, q as int) && is_whole(tile.h as int, q as int) {
            exact_up_to(tile, n - 1).push(q)
        } else {
            exact_up_to(tile, n - 1)
        }
    }
}

fn whole(v: i32, quarters: i32) -> (r: bool)
    requires
        0 <= quarters <= 14,
    ensures
        r == is_whole(v as int, quarters as int),
{
    let size: i64 = if v < 0 { -(v as i64) } else { v as i64 };
    proof {
        assert(0 <= size * quarters <= 0x8000_0000 * 14) by (nonlinear_arith)
            requires
                0 <= size <= 0x8000_0000,
                0 <= quarters <= 14,
        ;
        assert((-size) * quarters == -(size * quarters)) by (nonlinear_arith);
    }
    (size * quarters as i64) % 4 == 0
}

/// The scale factors (in quarters) `tile` gets an exact bitmap for.
pub fn exact_scales(tile: &Tile) -> (r: Vec<i32>)
    ensures
        r@ == exact_up_to(*tile, 9),
{
    let all: Vec<i32> = vec![4, 5, 6, 7, 8, 9, 10, 12, 14];
    let mut out: Vec<i32> = Vec::new();
    proof {
        assert(all@ =~= scales());
    }
    let mut i: usize = 0;
    while i < all.len()
        invariant
            i <= all@.len() == 9,
            all@ == scales(),
            out@ == exact_up_to(*tile, i as int),
        decreases 9 - i,
    {
        let q: i32 = all[i];
        assert(0 <= q <= 14);
        if whole(tile.w, q) && whole(tile.h, q) {
            out.push(q);
        }
        i = i + 1;
    }
    out
}

/// An image whose sides are multiples of 4 DIP has an exact bitmap at every scale.
pub proof fn multiples_of_four_are_exact_everywhere(tile: Tile, n: int)
    requires
        0 <= n <= 9,
        tile.w % 4 == 0,
        tile.h % 4 == 0,
    ensures
        exact_up_to(tile, n) == scales().take(n),
    decreases n,
{
    if n > 0 {
        multiples_of_four_are_exact_everywhere(tile, n - 1);
        let q = scales()[n - 1] as int;
        let (w, h) = (tile.w as int, tile.h as int);
        assert((w * q) % 4 == 0 && (h * q) % 4 == 0) by (nonlinear_arith)
            requires
                w % 4 == 0,
                h % 4 == 0,
        {
            assert(w == 4 * (w / 4));
            assert(h == 4 * (h / 4));
            assert(w * q == 4 * ((w / 4) * q));
            assert(h * q == 4 * ((h / 4) * q));
        }
        assert(scales().take(n) =~= scales().take(n - 1).push(scales()[n - 1]));
    } else {
        assert(scales().take(0) =~= Seq::empty());
    }
}

/// How often things were done, and how long the slow ones took (microseconds).
#[derive(Clone, Copy, PartialEq, Eq, Debug, Structural)]
pub struct Stats {
    pub images_built: u64,
    pub image_build_us: u64,
    pub cache_hits: u64,
    pub mask_layouts: u64,
    pub mask_shows: u64,
    pub mask_hides: u64,
    pub restacks: u64,
    pub cards_built: u64,
    pub card_build_us: u64,
}

impl Stats {
    /// Nothing was done yet.
    pub fn new() -> (r: Stats)
        ensures
            r == (Stats {
                images_built: 0,
                image_build_us: 0,
                cache_hits: 0,
                mask_layouts: 0,
                mask_shows: 0,
                mask_hides: 0,
                restacks: 0,
                cards_built: 0,
                card_build_us: 0,
            }),
    {
        Stats {
            images_built: 0,
            image_build_us: 0,
            cache_hits: 0,
            mask_layouts: 0,
            mask_shows: 0,
            mask_hides: 0,
            restacks: 0,
            cards_built: 0,
            card_build_us: 0,
        }
    }
}

/// A corner image that was made, by a handle of the caller's.
#[derive(Clone, Copy, PartialEq, Eq, Debug, Structural)]
pub struct Cached {
    pub tile: Tile,
    pub corner: Corner,
    pub image: u64,
}

/// The first image of a tile and corner in a list of images.
pub open spec fn first_image(list: Seq<Cached>, tile: Tile, corner: Corner) -> Option<u64>
    decreases list.len(),
{
    if list.len() == 0 {
        None
    } else if list[0].tile == tile && list[0].corner == corner {
        Some(list[0].image)
    } else {
        first_image(list.skip(1), tile, corner)
    }
}

/// The cached image of a tile and corner; that one is there is counted.
pub fn cached_image(list: &Vec<Cached>, stats: &mut Stats, tile: &Tile, corner: Corner) -> (r: Option<u64>)
    ensures
        r == first_image(list@, *tile, corner),
        *final(stats) == (if r is Some {
            Stats { cache_hits: next_number(old(stats).cache_hits), ..*old(stats) }
        } else {
            *old(stats)
        }),
{
    let mut i: usize = 0;
    proof {
        assert(list@.skip(0) =~= list@);
    }
    while i < list.len()
        invariant
            i <= list@.len(),
            first_image(list@, *tile, corner) == first_image(list@.skip(i as int), *tile, corner),
            *stats == *old(stats),
        decreases list@.len() - i,
    {
        if list[i].tile == *tile && list[i].corner == corner {
            stats.cache_hits = bump(stats.cache_hits);
            return Some(list[i].image);
        }
        proof {
            assert(list@.skip(i as int).skip(1) =~= list@.skip(i + 1));
        }
        i = i + 1;
    }
    None
}

/// Remembers an image that took so many microseconds to make; the oldest goes when the cache is full.
pub fn remember_image(list: &mut Vec<Cached>, stats: &mut Stats, entry: Cached, us: u64)
    ensures
        final(list)@ == (if old(list)@.len() >= IMAGE_CACHE_MAX { old(list)@.skip(1) } else { old(list)@ }).push(entry),
        old(list)@.len() <= IMAGE_CACHE_MAX ==> final(list)@.len() <= IMAGE_CACHE_MAX,
        *final(stats) == (Stats {
            images_built: next_number(old(stats).images_built),
            image_build_us: advanced(old(stats).image_build_us, us as nat),
            ..*old(stats)
        }),
{
    stats.images_built = bump(stats.images_built);
    stats.image_build_us = advance(stats.image_build_us, us);
    if list.len() >= IMAGE_CACHE_MAX {
        let _ = list.remove(0);
        proof {
            assert(list@ =~= old(list)@.skip(1));
        }
    }
    list.push(entry);
}

// ------------------------------------------------------------------------------ geometry

/// A scale factor (in millionths) times `k` is a whole number, but for less than a hundredth.
pub open spec fn nearly_whole(scale: int, k: int) -> bool {
    let rest = (scale * k) % 1_000_000;
    rest < 10_000 || rest > 990_000
}

/// The multiple of DIP that lands on whole device pixels at `scale` (in millionths, 100 % is a
/// million): 1 at 100/200/300 %, 2 at 150/250/350 %, else 4.
pub fn snap_unit(scale: u32) -> (r: i32)
    ensures
        r == (if nearly_whole(scale as int, 1) {
            1
        } else if nearly_whole(scale as int, 2) {
            2
        } else {
            4int
        }),
{
    let one: u64 = scale as u64 % 1_000_000;
    let two: u64 = (scale as u64 * 2) % 1_000_000;
    if one < 10_000 || one > 990_000 {
        1
    } else if two < 10_000 || two > 990_000 {
        2
    } else {
        4
    }
}

/// The unit for the display that the window is on; 4 suits every scale, and serves without one.
pub fn window_snap_unit(display: Option<u32>) -> (r: i32)
    ensures
        match display {
            Some(scale) => r == (if nearly_whole(scale as int, 1) {
                1
            } else if nearly_whole(scale as int, 2) {
                2
            } else {
                4int
            }),
            None => r == 4,
        },
{
    match display {
        Some(scale) => snap_unit(scale),
        None => 4,
    }
}

/// The largest multiple of `unit` that is not above `v`.
pub open spec fn floor_to(v: int, unit: int) -> int {
    v / unit * unit
}

/// The smallest multiple of `unit` that is not below `v`.
pub open spec fn ceil_to(v: int, unit: int) -> int {
    (v + unit - 1) / unit * unit
}

fn floor_multiple(v: i64, unit: i64) -> (r: i64)
    requires
        1 <= unit <= 0x7FFF_FFFF,
        -0x2_0000_0000 <= v <= 0x2_0000_0000,
    ensures
        r == floor_to(v as int, unit as int),
{
    if v >= 0 {
        proof {
            vstd::arithmetic::div_mod::lemma_fundamental_div_mod(v as int, unit as int);
            assert(0 <= (v / unit) * unit <= v) by (nonlinear_arith)
                requires
                    v == unit * (v / unit) + v % unit,
                    0 <= v % unit,
                    0 <= v,
                    1 <= unit,
            ;
        }
        v / unit * unit
    } else {
        // Steps of `unit` up to zero: one more than fit where they do not fit exactly.
        let up: i64 = -v;
        let steps: i64 = (up + unit - 1) / unit;
        proof {
            let q = steps as int;
            let n = up as int + unit as int - 1;
            let u = unit as int;
            vstd::arithmetic::div_mod::lemma_fundamental_div_mod(n, u);
            let r = v as int + q * u;
            assert(q * u <= n && q * u > n - u) by (nonlinear_arith)
                requires
                    n == u * q + n % u,
                    0 <= n % u < u,
            ;
            assert(0 <= r < u);
            assert(v as int == (-q) * u + r) by (nonlinear_arith)
                requires
                    r == v as int + q * u,
            ;
            vstd::arithmetic::div_mod::lemma_fundamental_div_mod_converse(v as int, u, -q, r);
            assert((-q) * u == -(q * u)) by (nonlinear_arith);
        }
        -(steps * unit)
    }
}

/// Every edge moved to a multiple of `unit`: outwards when `grow`, else inwards.
pub open spec fn snapped_edges(r: Rect, unit: int, grow: bool) -> (int, int, int, int) {
    if grow {
        (floor_to(r.x as int, unit), floor_to(r.y as int, unit), ceil_to(r.right(), unit), ceil_to(r.bottom(), unit))
    } else {
        (ceil_to(r.x as int, unit), ceil_to(r.y as int, unit), floor_to(r.right(), unit), floor_to(r.bottom(), unit))
    }
}

/// The multiple that is snapped to: at least 1.
pub open spec fn unit_of(unit: i32) -> int {
    larger(unit as int, 1)
}

/// The snapped rectangle is one that a [`Rect`] can hold.
pub open spec fn snaps(r: Rect, unit: i32, grow: bool) -> bool {
    let e = snapped_edges(r, unit_of(unit), grow);
    in_i32(e.0) && in_i32(e.1) && in_i32(e.2 - e.0) && in_i32(e.3 - e.1)
}

/// `r` with every edge moved to a multiple of `unit`: outwards when `grow`, else inwards (an edge pair
/// that would cross leaves a size of 0).
pub fn snap_rect(r: &Rect, unit: i32, grow: bool) -> (s: Rect)
    requires
        snaps(*r, unit, grow),
    ensures
        ({
            let e = snapped_edges(*r, unit_of(unit), grow);
            s.x == e.0 && s.y == e.1 && s.width == larger(e.2 - e.0, 0) && s.height == larger(e.3 - e.1, 0)
        }),
{
    let u: i64 = if unit < 1 { 1 } else { unit as i64 };
    let x1: i64 = r.x as i64 + r.width as i64;
    let y1: i64 = r.y as i64 + r.height as i64;
    let (left, top, right, bottom): (i64, i64, i64, i64) = if grow {
        (
            floor_multiple(r.x as i64, u),
            floor_multiple(r.y as i64, u),
            floor_multiple(x1 + u - 1, u),
            floor_multiple(y1 + u - 1, u),
        )
    } else {
        (
            floor_multiple(r.x as i64 + u - 1, u),
            floor_multiple(r.y as i64 + u - 1, u),
            floor_multiple(x1, u),
            floor_multiple(y1, u),
        )
    };
    let width: i64 = if right - left < 0 { 0 } else { right - left };
    let height: i64 = if bottom - top < 0 { 0 } else { bottom - top };
    Rect { x: left as i32, y: top as i32, width: width as i32, height: height as i32 }
}

/// What a multiple of a number is: floors and ceilings enclose the number and are less than a unit
/// away.
proof fn around(v: int, unit: int)
    requires
        1 <= unit,
    ensures
        floor_to(v, unit) <= v < floor_to(v, unit) + unit,
        ceil_to(v, unit) - unit < v <= ceil_to(v, unit),
        floor_to(v, unit) % unit == 0,
        ceil_to(v, unit) % unit == 0,
{
    let n = v + unit - 1;
    vstd::arithmetic::div_mod::lemma_fundamental_div_mod(v, unit);
    vstd::arithmetic::div_mod::lemma_fundamental_div_mod(n, unit);
    assert(v / unit * unit == unit * (v / unit)) by (nonlinear_arith);
    assert(n / unit * unit == unit * (n / unit)) by (nonlinear_arith);
    vstd::arithmetic::div_mod::lemma_mod_multiples_basic(v / unit, unit);
    vstd::arithmetic::div_mod::lemma_mod_multiples_basic(n / unit, unit);
}

/// A grown rectangle encloses the given one, its edges lie on the grid, and none moved by a whole unit.
pub proof fn growing_encloses(r: Rect, unit: int)
    requires
        1 <= unit,
        0 <= r.width,
        0 <= r.height,
    ensures
        ({
            let e = snapped_edges(r, unit, true);
            &&& e.0 <= r.x && e.1 <= r.y && r.right() <= e.2 && r.bottom() <= e.3
            &&& r.x - e.0 < unit && r.y - e.1 < unit && e.2 - r.right() < unit && e.3 - r.bottom() < unit
            &&& e.0 % unit == 0 && e.1 % unit == 0 && e.2 % unit == 0 && e.3 % unit == 0
            &&& e.0 <= e.2 && e.1 <= e.3
        }),
{
    around(r.x as int, unit);
    around(r.y as int, unit);
    around(r.right(), unit);
    around(r.bottom(), unit);
}

/// A shrunk rectangle stays inside the given one, and its edges lie on the grid.
pub proof fn shrinking_stays_inside(r: Rect, unit: int)
    requires
        1 <= unit,
    ensures
        ({
            let e = snapped_edges(r, unit, false);
            &&& r.x <= e.0 && r.y <= e.1 && e.2 <= r.right() && e.3 <= r.bottom()
            &&& e.0 % unit == 0 && e.1 % unit == 0 && e.2 % unit == 0 && e.3 % unit == 0
        }),
{
    around(r.x as int, unit);
    around(r.y as int, unit);
    around(r.right(), unit);
    around(r.bottom(), unit);
}

/// The shrunk rectangle, before it is held to `i32`.
pub open spec fn insets(r: Rect, dx: int, dy: int) -> bool {
    in_i32(r.x + dx) && in_i32(r.y + dy) && in_i32(r.width - 2 * dx) && in_i32(r.height - 2 * dy)
}

/// `r` shrunk by `dx` on the left and right and `dy` on the top and bottom (negative grows).
pub fn inset(r: &Rect, dx: i32, dy: i32) -> (s: Rect)
    requires
        insets(*r, dx as int, dy as int),
    ensures
        s.x == r.x + dx,
        s.y == r.y + dy,
        s.width == larger(r.width - 2 * dx, 0),
        s.height == larger(r.height - 2 * dy, 0),
{
    let width: i64 = r.width as i64 - 2 * dx as i64;
    let height: i64 = r.height as i64 - 2 * dy as i64;
    Rect {
        x: r.x + dx,
        y: r.y + dy,
        width: if width < 0 { 0 } else { width as i32 },
        height: if height < 0 { 0 } else { height as i32 },
    }
}

// ------------------------------------------------------------------------------ content masks

/// The image of a content mask: frame outside the arc, the ring, the page showing through inside.
pub open spec fn content_tile(outside: u32, ring: u32, bleed_x: int, bleed_y: int) -> Tile {
    Tile {
        w: (CONTENT_RADIUS + CONTENT_RING + bleed_x) as i32,
        h: (CONTENT_RADIUS + CONTENT_RING + bleed_y) as i32,
        r_in: CONTENT_RADIUS,
        r_out: (CONTENT_RADIUS + CONTENT_RING) as i32,
        inside: 0,
        ring,
        outside,
        shadow: 0,
        shadow_peak: 0,
    }
}

/// The image of a content mask that reaches `bleed_x` and `bleed_y` DIP beyond its corner.
pub fn mask_tile(outside: u32, ring: u32, bleed_x: i32, bleed_y: i32) -> (r: Tile)
    requires
        in_i32(CONTENT_RADIUS + CONTENT_RING + bleed_x),
        in_i32(CONTENT_RADIUS + CONTENT_RING + bleed_y),
    ensures
        r == content_tile(outside, ring, bleed_x as int, bleed_y as int),
{
    let size: i32 = CONTENT_RADIUS + CONTENT_RING;
    Tile {
        w: size + bleed_x,
        h: size + bleed_y,
        r_in: CONTENT_RADIUS,
        r_out: size,
        inside: 0,
        ring,
        outside,
        shadow: 0,
        shadow_peak: 0,
    }
}

/// How far the mask of a corner reaches beyond the pane, `(horizontally, vertically)`: only into native
/// frame. That is right and bottom always, the left where the pane does not start at the content's left
/// edge or the inset there is frame, the top where the pane does not start at the content's top.
pub open spec fn bleed(pane: Rect, content: Rect, left_inset_is_frame: bool, corner: Corner) -> (int, int) {
    (
        if corner.is_right() || pane.x > content.x || left_inset_is_frame { MASK_BLEED as int } else { 0 },
        if corner.is_bottom() || pane.y > content.y { MASK_BLEED as int } else { 0 },
    )
}

/// A mask's rectangle: `size` DIP over the corner of `around` and `bleed` beyond it.
pub open spec fn corner_rect(around: Rect, corner: Corner, size: int, bleed: (int, int)) -> (int, int, int, int) {
    (
        if corner.is_right() { around.right() - size } else { around.x - bleed.0 },
        if corner.is_bottom() { around.bottom() - size } else { around.y - bleed.1 },
        size + bleed.0,
        size + bleed.1,
    )
}

pub open spec fn is_rect(r: Rect, e: (int, int, int, int)) -> bool {
    r.x == e.0 && r.y == e.1 && r.width == e.2 && r.height == e.3
}

/// The corners of a pane lie where an `i32` reaches, with room for the bleed.
pub open spec fn has_room(r: Rect) -> bool {
    in_i32(r.x - MASK_BLEED) && in_i32(r.y - MASK_BLEED) && in_i32(r.right()) && in_i32(r.bottom())
}

/// The pane is large enough for its corners.
pub open spec fn holds_corners(r: Rect, size: int) -> bool {
    r.width >= 2 * size && r.height >= 2 * size
}

fn place_corner(around: &Rect, corner: Corner, size: i32, bx: i32, by: i32) -> (r: Rect)
    requires
        has_room(*around),
        0 < size <= 100,
        0 <= bx <= MASK_BLEED,
        0 <= by <= MASK_BLEED,
        holds_corners(*around, size as int),
    ensures
        is_rect(r, corner_rect(*around, corner, size as int, (bx as int, by as int))),
{
    let x: i32 = if corner.right() { around.x + around.width - size } else { around.x - bx };
    let y: i32 = if corner.bottom() { around.y + around.height - size } else { around.y - by };
    Rect { x, y, width: size + bx, height: size + by }
}

/// Where the `corner` mask of a pane goes and what it shows. `ring`: the pane's ring color as shown;
/// `content`: the content panel; `left_inset_is_frame`: the sidebar is hidden, so the content's left
/// inset is native frame. `None` when the pane is too small for its corners.
pub fn mask_placement(
    pane: &Rect,
    ring: u32,
    content: &Rect,
    left_inset_is_frame: bool,
    corner: Corner,
    colors: ChromeColors,
) -> (r: Option<(Rect, Tile)>)
    requires
        has_room(*pane),
    ensures
        placed(*pane, ring, *content, left_inset_is_frame, corner, colors, r),
{
    let size: i32 = CONTENT_RADIUS + CONTENT_RING;
    if pane.width < 2 * size || pane.height < 2 * size {
        return None;
    }
    let bx: i32 = if corner.right() || pane.x > content.x || left_inset_is_frame { MASK_BLEED } else { 0 };
    let by: i32 = if corner.bottom() || pane.y > content.y { MASK_BLEED } else { 0 };
    let tile = mask_tile(colors.frame, ring, bx, by);
    Some((place_corner(pane, corner, size, bx, by), tile))
}

/// `r` is the placement of a pane's corner mask.
pub open spec fn placed(
    pane: Rect,
    ring: u32,
    content: Rect,
    left_inset_is_frame: bool,
    corner: Corner,
    colors: ChromeColors,
    r: Option<(Rect, Tile)>,
) -> bool {
    let size = CONTENT_RADIUS + CONTENT_RING;
    let b = bleed(pane, content, left_inset_is_frame, corner);
    match r {
        None => !holds_corners(pane, size),
        Some(p) => {
            &&& holds_corners(pane, size)
            &&& is_rect(p.0, corner_rect(pane, corner, size, b))
            &&& p.1 == content_tile(colors.frame, ring, b.0, b.1)
        },
    }
}

/// A mask never reaches over the top bar or a docked sidebar: beyond the content's top edge never, and
/// beyond its left edge only where the inset there is frame.
pub proof fn masks_bleed_only_into_frame(pane: Rect, ring: u32, content: Rect, left_inset_is_frame: bool, corner: Corner, colors: ChromeColors, r: Rect, t: Tile)
    requires
        placed(pane, ring, content, left_inset_is_frame, corner, colors, Some((r, t))),
        content.encloses(pane),
        pane.x == content.x || pane.x >= content.x + MASK_BLEED,
        pane.y == content.y || pane.y >= content.y + MASK_BLEED,
    ensures
        r.y >= content.y,
        !left_inset_is_frame ==> r.x >= content.x,
        left_inset_is_frame ==> r.x >= content.x - MASK_BLEED,
        r.right() <= pane.right() + MASK_BLEED,
        r.bottom() <= pane.bottom() + MASK_BLEED,
        t.w % 4 == 0 && t.h % 4 == 0,
{
}

/// One mask overlay as it stands.
#[derive(Clone, Copy, PartialEq, Eq, Debug, Structural)]
pub struct Mask {
    pub slot: usize,
    pub corner: Corner,
    /// The tile its image shows.
    pub tile: Tile,
    pub bounds: Rect,
    pub visible: bool,
}

/// What to change on one mask overlay.
#[derive(Clone, Copy, PartialEq, Eq, Debug, Structural)]
pub struct MaskChange {
    /// Show the image of this tile (and remember it, if the image can be made).
    pub tile: Option<Tile>,
    pub bounds: Option<Rect>,
    /// Show (`true`) or remove it.
    pub visible: Option<bool>,
}

/// What changes on a mask that belongs at a placement (`None`: nowhere). A hidden mask is only shown
/// when `allow_show`.
pub open spec fn change_of(mask: Mask, placement: Option<(Rect, Tile)>, allow_show: bool) -> MaskChange {
    match placement {
        None => MaskChange { tile: None, bounds: None, visible: if mask.visible { Some(false) } else { None } },
        Some(p) => MaskChange {
            tile: if p.1 != mask.tile { Some(p.1) } else { None },
            bounds: if p.0 != mask.bounds { Some(p.0) } else { None },
            visible: if !mask.visible && allow_show { Some(true) } else { None },
        },
    }
}

fn mask_change(mask: &Mask, placement: Option<(Rect, Tile)>, allow_show: bool) -> (r: MaskChange)
    ensures
        r == change_of(*mask, placement, allow_show),
{
    match placement {
        None => MaskChange { tile: None, bounds: None, visible: if mask.visible { Some(false) } else { None } },
        Some(p) => MaskChange {
            tile: if p.1 != mask.tile { Some(p.1) } else { None },
            bounds: if p.0 != mask.bounds { Some(p.0) } else { None },
            visible: if !mask.visible && allow_show { Some(true) } else { None },
        },
    }
}

/// A mask that was not yet placed, for `create_masks`.
#[derive(Clone, Copy, PartialEq, Eq, Debug, Structural)]
pub struct MaskSeed {
    pub slot: usize,
    pub corner: Corner,
    pub tile: Tile,
}

/// The mask overlays to create, hidden: four corners for every slot, in order.
pub fn create_masks(colors: ChromeColors) -> (r: Vec<MaskSeed>)
    ensures
        r@ == Seq::new(
            16,
            |k: int| MaskSeed { slot: (k / 4) as usize, corner: corner_number(k % 4), tile: content_tile(colors.frame, colors.frame, 0, 0) },
        ),
{
    let mut out: Vec<MaskSeed> = Vec::new();
    let mut k: usize = 0;
    while k < 4 * SLOTS
        invariant
            k <= 16,
            out@ == Seq::new(
                k as nat,
                |j: int| MaskSeed { slot: (j / 4) as usize, corner: corner_number(j % 4), tile: content_tile(colors.frame, colors.frame, 0, 0) },
            ),
        decreases 16 - k,
    {
        out.push(MaskSeed { slot: k / 4, corner: nth_corner(k % 4), tile: mask_tile(colors.frame, colors.frame, 0, 0) });
        k = k + 1;
        proof {
            assert(out@ =~= Seq::new(
                k as nat,
                |j: int| MaskSeed { slot: (j / 4) as usize, corner: corner_number(j % 4), tile: content_tile(colors.frame, colors.frame, 0, 0) },
            ));
        }
    }
    out
}

/// The panes on screen, the content panel around them, and the colors.
pub struct Scene {
    /// The panes in layout order, with the ring color each shows.
    pub panes: Vec<(Rect, u32)>,
    /// The content panel, if it is laid out.
    pub content: Option<Rect>,
    /// The sidebar is hidden: the content's left inset is native frame.
    pub left_inset_is_frame: bool,
    pub colors: ChromeColors,
}

impl Scene {
    pub open spec fn has_room(self) -> bool {
        forall|k: int| 0 <= k < self.panes@.len() ==> has_room(#[trigger] self.panes@[k].0)
    }

    /// `p` is where a mask belongs in this scene.
    pub open spec fn places(self, mask: Mask, p: Option<(Rect, Tile)>) -> bool {
        if mask.slot < self.panes@.len() {
            let (pane, ring) = self.panes@[mask.slot as int];
            let content = match self.content {
                Some(c) => c,
                None => pane,
            };
            placed(pane, ring, content, self.left_inset_is_frame, mask.corner, self.colors, p)
        } else {
            p is None
        }
    }

    /// `change` is what the scene makes of a mask.
    pub open spec fn changes(self, mask: Mask, change: MaskChange) -> bool {
        exists|p: Option<(Rect, Tile)>| #[trigger] self.places(mask, p) && change == change_of(mask, p, true)
    }

    fn placement(&self, mask: &Mask) -> (p: Option<(Rect, Tile)>)
        requires
            self.has_room(),
        ensures
            self.places(*mask, p),
    {
        if mask.slot >= self.panes.len() {
            return None;
        }
        let pane: Rect = self.panes[mask.slot].0;
        let ring: u32 = self.panes[mask.slot].1;
        let content: Rect = match self.content {
            Some(c) => c,
            None => pane,
        };
        mask_placement(&pane, ring, &content, self.left_inset_is_frame, mask.corner, self.colors)
    }
}

/// The place of a mask is one place only.
pub proof fn a_mask_has_one_place(scene: Scene, mask: Mask, p: Option<(Rect, Tile)>, q: Option<(Rect, Tile)>)
    requires
        scene.places(mask, p),
        scene.places(mask, q),
    ensures
        p == q,
{
}

/// A mask is shown by one of the changes.
pub open spec fn any_shown(changes: Seq<MaskChange>) -> bool {
    exists|k: int| 0 <= k < changes.len() && (#[trigger] changes[k]).visible == Some(true)
}

/// How many of the changes show a mask (or, with `false`, remove one).
pub open spec fn switched(changes: Seq<MaskChange>, to: bool) -> nat
    decreases changes.len(),
{
    if changes.len() == 0 {
        0
    } else {
        switched(changes.drop_last(), to) + if changes.last().visible == Some(to) { 1nat } else { 0 }
    }
}

/// Positions, recolors, shows and hides the masks for the panes on screen: one change per mask, and
/// whether the overlays have to be restacked (a mask that is shown rises above them). `None` while the
/// window closes or without masks.
pub fn layout_masks(closing: bool, masks: &Vec<Mask>, scene: &Scene, stats: &mut Stats) -> (r: Option<(Vec<MaskChange>, bool)>)
    requires
        scene.has_room(),
    ensures
        r is None <==> closing || masks@.len() == 0,
        match r {
            Some(plan) => {
                &&& plan.0@.len() == masks@.len()
                &&& forall|k: int| 0 <= k < masks@.len() ==> scene.changes(masks@[k], #[trigger] plan.0@[k])
                &&& plan.1 == any_shown(plan.0@)
                &&& *final(stats) == (Stats {
                    mask_layouts: next_number(old(stats).mask_layouts),
                    mask_shows: advanced(old(stats).mask_shows, switched(plan.0@, true)),
                    mask_hides: advanced(old(stats).mask_hides, switched(plan.0@, false)),
                    restacks: if plan.1 { next_number(old(stats).restacks) } else { old(stats).restacks },
                    ..*old(stats)
                })
            },
            None => *final(stats) == *old(stats),
        },
{
    if closing || masks.len() == 0 {
        return None;
    }
    let mut changes: Vec<MaskChange> = Vec::new();
    let mut shown = false;
    let mut k: usize = 0;
    while k < masks.len()
        invariant
            k <= masks@.len(),
            scene.has_room(),
            changes@.len() == k,
            forall|j: int| 0 <= j < k ==> scene.changes(masks@[j], #[trigger] changes@[j]),
            shown == any_shown(changes@),
            *stats == (Stats {
                mask_shows: advanced(old(stats).mask_shows, switched(changes@, true)),
                mask_hides: advanced(old(stats).mask_hides, switched(changes@, false)),
                ..*old(stats)
            }),
        decreases masks@.len() - k,
    {
        let placement = scene.placement(&masks[k]);
        let change = mask_change(&masks[k], placement, true);
        let ghost before = changes@;
        changes.push(change);
        match change.visible {
            Some(true) => {
                stats.mask_shows = bump(stats.mask_shows);
                shown = true;
            },
            Some(false) => {
                stats.mask_hides = bump(stats.mask_hides);
            },
            None => {},
        }
        proof {
            assert(forall|j: int| 0 <= j < k ==> changes@[j] == before[j]);
            assert(changes@[k as int] == change);
            assert(changes@.drop_last() =~= before);
            if any_shown(before) {
                let j = choose|j: int| 0 <= j < before.len() && (#[trigger] before[j]).visible == Some(true);
                assert(changes@[j].visible == Some(true));
            }
        }
        k = k + 1;
    }
    stats.mask_layouts = bump(stats.mask_layouts);
    if shown {
        stats.restacks = bump(stats.restacks);
    }
    Some((changes, shown))
}

/// Remembers the tile that a mask's image shows now.
pub fn retile(masks: &mut Vec<Mask>, slot: usize, corner: Corner, tile: Tile)
    ensures
        final(masks)@ == old(masks)@.map_values(
            |m: Mask| if m.slot == slot && m.corner == corner { Mask { tile, ..m } } else { m },
        ),
{
    let ghost before = masks@;
    let mut k: usize = 0;
    while k < masks.len()
        invariant
            k <= masks@.len() == before.len(),
            forall|j: int| 0 <= j < k ==> masks@[j] == (if before[j].slot == slot && before[j].corner == corner { Mask { tile, ..before[j] } } else { before[j] }),
            forall|j: int| k <= j < before.len() ==> masks@[j] == before[j],
        decreases before.len() - k,
    {
        let m: Mask = masks[k];
        if m.slot == slot && m.corner == corner {
            masks.set(k, Mask { tile, ..m });
        }
        k = k + 1;
    }
    proof {
        assert(masks@ =~= before.map_values(|m: Mask| if m.slot == slot && m.corner == corner { Mask { tile, ..m } } else { m }));
    }
}

// ------------------------------------------------------------------------------ Peek page masks

/// The image of a Peek page mask: surface outside the arc.
pub open spec fn peek_tile(surface: u32) -> Tile {
    Tile {
        w: (PEEK_PAGE_RADIUS + MASK_BLEED) as i32,
        h: (PEEK_PAGE_RADIUS + MASK_BLEED) as i32,
        r_in: PEEK_PAGE_RADIUS,
        r_out: PEEK_PAGE_RADIUS,
        inside: 0,
        ring: 0,
        outside: surface,
        shadow: 0,
        shadow_peak: 0,
    }
}

/// `r` is the placement of the Peek page's corner mask.
pub open spec fn peek_placed(page: Rect, corner: Corner, surface: u32, r: Option<(Rect, Tile)>) -> bool {
    match r {
        None => !holds_corners(page, PEEK_PAGE_RADIUS as int),
        Some(p) => {
            &&& holds_corners(page, PEEK_PAGE_RADIUS as int)
            &&& is_rect(p.0, corner_rect(page, corner, PEEK_PAGE_RADIUS as int, (MASK_BLEED as int, MASK_BLEED as int)))
            &&& p.1 == peek_tile(surface)
        },
    }
}

/// The Peek page's `corner` mask: surface outside the arc, reaching into the card's fill around the
/// page. `None` when the page is too small for its corners.
pub fn peek_mask_placement(page: &Rect, corner: Corner, surface: u32) -> (r: Option<(Rect, Tile)>)
    requires
        has_room(*page),
    ensures
        peek_placed(*page, corner, surface, r),
{
    let radius: i32 = PEEK_PAGE_RADIUS;
    if page.width < 2 * radius || page.height < 2 * radius {
        return None;
    }
    let tile = Tile {
        w: radius + MASK_BLEED,
        h: radius + MASK_BLEED,
        r_in: radius,
        r_out: radius,
        inside: 0,
        ring: 0,
        outside: surface,
        shadow: 0,
        shadow_peak: 0,
    };
    Some((place_corner(page, corner, radius, MASK_BLEED, MASK_BLEED), tile))
}

/// The Peek page masks to create, hidden: one for every corner, in order.
pub fn create_peek_masks(surface: u32) -> (r: Vec<MaskSeed>)
    ensures
        r@ == Seq::new(4, |k: int| MaskSeed { slot: 0, corner: corner_number(k), tile: peek_tile(surface) }),
{
    let page = Rect { x: 0, y: 0, width: 100, height: 100 };
    let mut out: Vec<MaskSeed> = Vec::new();
    let mut k: usize = 0;
    while k < 4
        invariant
            k <= 4,
            page == (Rect { x: 0, y: 0, width: 100, height: 100 }),
            out@ == Seq::new(k as nat, |j: int| MaskSeed { slot: 0, corner: corner_number(j), tile: peek_tile(surface) }),
        decreases 4 - k,
    {
        let corner = nth_corner(k);
        match peek_mask_placement(&page, corner, surface) {
            Some(p) => {
                out.push(MaskSeed { slot: 0, corner, tile: p.1 });
            },
            None => {},
        }
        k = k + 1;
        proof {
            assert(out@ =~= Seq::new(k as nat, |j: int| MaskSeed { slot: 0, corner: corner_number(j), tile: peek_tile(surface) }));
        }
    }
    out
}

/// `p` is where a Peek page mask belongs.
pub open spec fn peek_places(page: Option<Rect>, corner: Corner, surface: u32, p: Option<(Rect, Tile)>) -> bool {
    match page {
        Some(r) => peek_placed(r, corner, surface, p),
        None => p is None,
    }
}

/// `change` is what a page makes of a Peek page mask.
pub open spec fn peek_changes(mask: Mask, page: Option<Rect>, surface: u32, allow_show: bool, change: MaskChange) -> bool {
    exists|p: Option<(Rect, Tile)>| #[trigger] peek_places(page, mask.corner, surface, p) && change == change_of(mask, p, allow_show)
}

/// Places the Peek page masks on `page` (`None` removes them) and recolors them: one change per mask,
/// and whether one was shown. A hidden mask is only shown when `allow_show`.
pub fn layout_peek_masks(masks: &Vec<Mask>, page: Option<Rect>, surface: u32, allow_show: bool) -> (r: (Vec<MaskChange>, bool))
    requires
        page is Some ==> has_room(page->0),
    ensures
        r.0@.len() == masks@.len(),
        forall|k: int| 0 <= k < masks@.len() ==> peek_changes(masks@[k], page, surface, allow_show, #[trigger] r.0@[k]),
        r.1 == any_shown(r.0@),
{
    let mut changes: Vec<MaskChange> = Vec::new();
    let mut shown = false;
    let mut k: usize = 0;
    while k < masks.len()
        invariant
            k <= masks@.len(),
            page is Some ==> has_room(page->0),
            changes@.len() == k,
            forall|j: int| 0 <= j < k ==> peek_changes(masks@[j], page, surface, allow_show, #[trigger] changes@[j]),
            shown == any_shown(changes@),
        decreases masks@.len() - k,
    {
        let placement = match page {
            Some(p) => peek_mask_placement(&p, masks[k].corner, surface),
            None => None,
        };
        let change = mask_change(&masks[k], placement, allow_show);
        let now = match change.visible {
            Some(v) => v,
            None => false,
        };
        let ghost before = changes@;
        changes.push(change);
        proof {
            assert(forall|j: int| 0 <= j < k ==> changes@[j] == before[j]);
            assert(peek_places(page, masks@[k as int].corner, surface, placement));
            assert(changes@[k as int] == change);
            if any_shown(before) {
                let j = choose|j: int| 0 <= j < before.len() && (#[trigger] before[j]).visible == Some(true);
                assert(changes@[j].visible == Some(true));
            }
        }
        shown = shown || now;
        k = k + 1;
    }
    (changes, shown)
}

// ------------------------------------------------------------------------------ cards

/// Where a card's corner images go.
#[derive(Clone, Copy, PartialEq, Eq, Debug, Structural)]
pub enum Orientation {
    /// Top and bottom rows (the page is padded by the radius vertically).
    Rows,
    /// Left and right columns (the page is padded by the radius horizontally): short bars.
    Columns,
}

/// A card's fill and border colors.
#[derive(Clone, Copy, PartialEq, Eq, Debug, Structural)]
pub enum Palette {
    /// Overlay pages: surface with border over surface.
    Surface,
    /// The floating sidebar: frame with border over frame.
    Frame,
}

impl Palette {
    pub open spec fn pair(self, c: ChromeColors) -> (u32, u32) {
        match self {
            Palette::Surface => (c.surface, c.border),
            Palette::Frame => (c.frame, c.frame_border),
        }
    }

    /// `(fill, border)`.
    pub fn colors(self, c: ChromeColors) -> (r: (u32, u32))
        ensures
            r == self.pair(c),
    {
        match self {
            Palette::Surface => (c.surface, c.border),
            Palette::Frame => (c.frame, c.frame_border),
        }
    }
}

#[derive(Clone, Copy, PartialEq, Eq, Debug, Structural)]
pub struct CardSpec {
    pub radius: i32,
    pub shadow: i32,
    /// Fill between the side border (Rows) or the top/bottom border (Columns) and the page.
    pub pad: i32,
    pub orientation: Orientation,
    /// The inner panel stacks its views vertically (Peek: header over page).
    pub vertical_content: bool,
    pub palette: Palette,
}

impl CardSpec {
    /// Its sums are lengths.
    pub open spec fn valid(self) -> bool {
        in_i32(self.arc_size()) && in_i32(self.shadow + 1) && in_i32(self.edge_size()) && in_i32(1 + self.pad) && in_i32(self.radius - 1)
    }

    /// How many rings the shadow has, 1 DIP each.
    pub open spec fn rings(self) -> int {
        if self.shadow < 0 { 0 } else { self.shadow as int }
    }

    /// The side of a corner image.
    pub open spec fn arc_size(self) -> int {
        self.shadow + self.radius
    }

    /// Shadow, border and pad.
    pub open spec fn edge_size(self) -> int {
        self.shadow + 1 + self.pad
    }

    /// Host rect to page rect: DIP per side, `(horizontal, vertical)`.
    pub open spec fn around_page(self) -> (int, int) {
        match self.orientation {
            Orientation::Rows => (self.edge_size(), self.arc_size()),
            Orientation::Columns => (self.arc_size(), self.edge_size()),
        }
    }

    /// Host rect to page rect: DIP per side, `(horizontal, vertical)`.
    pub fn chrome(&self) -> (r: (i32, i32))
        requires
            self.valid(),
        ensures
            r.0 == self.around_page().0,
            r.1 == self.around_page().1,
    {
        let edge: i32 = self.shadow + 1 + self.pad;
        let arc: i32 = self.shadow + self.radius;
        match self.orientation {
            Orientation::Rows => (edge, arc),
            Orientation::Columns => (arc, edge),
        }
    }

    /// Card rect (outer border edge) to page rect: DIP per side, `(horizontal, vertical)`.
    pub fn inner(&self) -> (r: (i32, i32))
        requires
            self.valid(),
        ensures
            r.0 == self.around_page().0 - self.shadow,
            r.1 == self.around_page().1 - self.shadow,
    {
        let c = self.chrome();
        (c.0 - self.shadow, c.1 - self.shadow)
    }

    /// The side of a corner image.
    pub fn arc(&self) -> (r: i32)
        requires
            self.valid(),
        ensures
            r == self.arc_size(),
    {
        self.shadow + self.radius
    }

    /// The image of the card's corners.
    pub open spec fn corner_tile(self, colors: ChromeColors) -> Tile {
        Tile {
            w: self.arc_size() as i32,
            h: self.arc_size() as i32,
            r_in: (self.radius - 1) as i32,
            r_out: self.radius,
            inside: self.palette.pair(colors).0,
            ring: self.palette.pair(colors).1,
            outside: 0,
            shadow: self.shadow,
            shadow_peak: colors.peak(),
        }
    }

    /// The image of the card's corners.
    pub fn tile(&self, colors: ChromeColors) -> (r: Tile)
        requires
            self.valid(),
        ensures
            r == self.corner_tile(colors),
    {
        let pair = self.palette.colors(colors);
        Tile {
            w: self.arc(),
            h: self.arc(),
            r_in: self.radius - 1,
            r_out: self.radius,
            inside: pair.0,
            ring: pair.1,
            outside: 0,
            shadow: self.shadow,
            shadow_peak: colors.shadow_peak(),
        }
    }
}

/// The card grown by its shadow on every side.
pub open spec fn with_shadow(card: Rect, shadow: int) -> Rect {
    Rect {
        x: (card.x - shadow) as i32,
        y: (card.y - shadow) as i32,
        width: larger(card.width + 2 * shadow, 0) as i32,
        height: larger(card.height + 2 * shadow, 0) as i32,
    }
}

/// The overlay host rect (card plus shadow) for a card rect, snapped to `unit` (grown, or shrunk when
/// the host must stay inside a limit such as the window's resize bands).
pub fn host_rect(card: &Rect, spec: &CardSpec, unit: i32, grow: bool) -> (r: Rect)
    requires
        spec.valid(),
        insets(*card, -(spec.shadow as int), -(spec.shadow as int)),
        snaps(with_shadow(*card, spec.shadow as int), unit, grow),
    ensures
        ({
            let e = snapped_edges(with_shadow(*card, spec.shadow as int), unit_of(unit), grow);
            r.x == e.0 && r.y == e.1 && r.width == larger(e.2 - e.0, 0) && r.height == larger(e.3 - e.1, 0)
        }),
{
    let grown = inset(card, -spec.shadow, -spec.shadow);
    proof {
        assert(grown == with_shadow(*card, spec.shadow as int));
    }
    snap_rect(&grown, unit, grow)
}

/// What a panel of a card is filled with.
#[derive(Clone, Copy, PartialEq, Eq, Debug, Structural)]
pub enum Fill {
    /// The card color (surface or frame).
    Interior,
    Border,
    /// Shadow strip `i` (0 = outermost).
    Shadow(i32),
}

/// The color of a fill; `strip` is the alpha of the shadow strip, where it is one.
pub open spec fn filled(fill: Fill, spec: CardSpec, colors: ChromeColors, strip: u8) -> int {
    match fill {
        Fill::Interior => spec.palette.pair(colors).0 as int,
        Fill::Border => spec.palette.pair(colors).1 as int,
        Fill::Shadow(_) => strip * 0x100_0000,
    }
}

/// The color of a fill; `strip` is the alpha of the shadow strip, where it is one.
pub fn fill_color(fill: Fill, spec: &CardSpec, colors: ChromeColors, strip: u8) -> (r: u32)
    ensures
        r == filled(fill, *spec, colors, strip),
{
    let pair = spec.palette.colors(colors);
    match fill {
        Fill::Interior => pair.0,
        Fill::Border => pair.1,
        Fill::Shadow(_) => strip as u32 * 0x100_0000,
    }
}

/// One filled panel: its preferred size, and whether it takes what room is left.
#[derive(Clone, Copy, PartialEq, Eq, Debug, Structural)]
pub struct Strip {
    pub fill: Fill,
    pub width: i32,
    pub height: i32,
    pub flex: bool,
}

/// A row (Columns: a column) that holds two corners and the edge between them.
pub struct End {
    /// The children stand side by side (else below each other).
    pub horizontal: bool,
    pub width: i32,
    pub height: i32,
    pub start: Corner,
    /// The edge's strips stand side by side (else below each other).
    pub edge_horizontal: bool,
    pub edge: Vec<Strip>,
    pub end: Corner,
}

/// Insets of a panel, in DIP.
#[derive(Clone, Copy, PartialEq, Eq, Debug, Structural)]
pub struct Insets {
    pub top: i32,
    pub left: i32,
    pub bottom: i32,
    pub right: i32,
}

/// The middle of a card: shadow strips, the border-colored host with the filled panel that parents the
/// views, shadow strips.
pub struct Middle {
    pub horizontal: bool,
    pub before: Vec<Strip>,
    pub host_horizontal: bool,
    pub border_insets: Insets,
    pub inner_horizontal: bool,
    pub pad_insets: Insets,
    pub after: Vec<Strip>,
}

/// The views of a card, first to last.
pub struct CardPlan {
    pub tile: Tile,
    /// The root puts its three children side by side (else below each other).
    pub root_horizontal: bool,
    pub first: End,
    pub middle: Middle,
    pub last: End,
}

/// A strip `t` DIP thick across the card's edge.
pub open spec fn across(columns: bool, fill: Fill, t: int, flex: bool) -> Strip {
    Strip { fill, width: if columns { t as i32 } else { 1 }, height: if columns { 1 } else { t as i32 }, flex }
}

/// Strip `k` of an end's edge, from the outside in: the shadow, the border, then fill up to the page.
pub open spec fn edge_strip(spec: CardSpec, columns: bool, k: int) -> Strip {
    if k < spec.rings() {
        across(columns, Fill::Shadow(k as i32), 1, false)
    } else if k == spec.rings() {
        across(columns, Fill::Border, 1, false)
    } else {
        across(columns, Fill::Interior, spec.radius - 1, true)
    }
}

/// An end's edge: from the outside in for the first, from the inside out for the last.
pub open spec fn edge_strips(spec: CardSpec, columns: bool, first: bool) -> Seq<Strip> {
    Seq::new(
        (spec.rings() + 2) as nat,
        |k: int| edge_strip(spec, columns, if first { k } else { spec.rings() + 1 - k }),
    )
}

/// The shadow strips beside the middle, 1 DIP each along the edge.
pub open spec fn side_strips(spec: CardSpec, columns: bool, outer_first: bool) -> Seq<Strip> {
    Seq::new(
        spec.rings() as nat,
        |k: int|
            Strip {
                fill: Fill::Shadow(if outer_first { k as i32 } else { (spec.rings() - 1 - k) as i32 }),
                width: 1,
                height: 1,
                flex: false,
            },
    )
}

/// `e` is the first (or last) end of a card.
pub open spec fn is_end(spec: CardSpec, columns: bool, first: bool, e: End) -> bool {
    &&& e.horizontal == !columns
    &&& e.width == (if columns { spec.arc_size() } else { 1 })
    &&& e.height == (if columns { 1 } else { spec.arc_size() })
    &&& e.start == (if first {
        Corner::TopLeft
    } else if columns {
        Corner::TopRight
    } else {
        Corner::BottomLeft
    })
    &&& e.end == (if !first {
        Corner::BottomRight
    } else if columns {
        Corner::BottomLeft
    } else {
        Corner::TopRight
    })
    &&& e.edge_horizontal == columns
    &&& e.edge@ == edge_strips(spec, columns, first)
}

/// `n` DIP on the two sides that face away from the ends.
pub open spec fn side_insets(columns: bool, n: int) -> Insets {
    Insets {
        top: if columns { n as i32 } else { 0 },
        left: if columns { 0 } else { n as i32 },
        bottom: if columns { n as i32 } else { 0 },
        right: if columns { 0 } else { n as i32 },
    }
}

/// `p` holds the views of a card.
pub open spec fn is_card(spec: CardSpec, colors: ChromeColors, p: CardPlan) -> bool {
    let columns = spec.orientation == Orientation::Columns;
    &&& p.tile == spec.corner_tile(colors)
    &&& p.root_horizontal == columns
    &&& is_end(spec, columns, true, p.first)
    &&& is_end(spec, columns, false, p.last)
    &&& p.middle.horizontal == !columns
    &&& p.middle.before@ == side_strips(spec, columns, true)
    &&& p.middle.host_horizontal == !columns
    &&& p.middle.border_insets == side_insets(columns, 1)
    &&& p.middle.inner_horizontal == !spec.vertical_content
    &&& p.middle.pad_insets == side_insets(columns, spec.pad as int)
    &&& p.middle.after@ == side_strips(spec, columns, false)
}

fn strip_across(columns: bool, fill: Fill, t: i32, flex: bool) -> (r: Strip)
    ensures
        r == across(columns, fill, t as int, flex),
{
    Strip { fill, width: if columns { t } else { 1 }, height: if columns { 1 } else { t }, flex }
}

fn build_end(spec: &CardSpec, columns: bool, first: bool) -> (r: End)
    requires
        spec.valid(),
    ensures
        is_end(*spec, columns, first, r),
{
    let rings: i64 = if spec.shadow < 0 { 0 } else { spec.shadow as i64 };
    let total: i64 = rings + 2;
    let mut edge: Vec<Strip> = Vec::new();
    let mut k: i64 = 0;
    while k < total
        invariant
            spec.valid(),
            rings == spec.rings(),
            rings <= i32::MAX,
            total == rings + 2,
            0 <= k <= total,
            edge@ == edge_strips(*spec, columns, first).take(k as int),
        decreases total - k,
    {
        let n: i64 = if first { k } else { rings + 1 - k };
        let strip = if n < rings {
            strip_across(columns, Fill::Shadow(n as i32), 1, false)
        } else if n == rings {
            strip_across(columns, Fill::Border, 1, false)
        } else {
            strip_across(columns, Fill::Interior, spec.radius - 1, true)
        };
        edge.push(strip);
        proof {
            assert(edge@ =~= edge_strips(*spec, columns, first).take(k + 1));
        }
        k = k + 1;
    }
    proof {
        assert(edge@ =~= edge_strips(*spec, columns, first));
    }
    let arc: i32 = spec.arc();
    End {
        horizontal: !columns,
        width: if columns { arc } else { 1 },
        height: if columns { 1 } else { arc },
        start: if first {
            Corner::TopLeft
        } else if columns {
            Corner::TopRight
        } else {
            Corner::BottomLeft
        },
        edge_horizontal: columns,
        edge,
        end: if !first {
            Corner::BottomRight
        } else if columns {
            Corner::BottomLeft
        } else {
            Corner::TopRight
        },
    }
}

fn build_sides(spec: &CardSpec, columns: bool, outer_first: bool) -> (r: Vec<Strip>)
    requires
        spec.valid(),
    ensures
        r@ == side_strips(*spec, columns, outer_first),
{
    let mut out: Vec<Strip> = Vec::new();
    let rings: i32 = if spec.shadow < 0 { 0 } else { spec.shadow };
    let mut k: i32 = 0;
    while k < rings
        invariant
            spec.valid(),
            rings == spec.rings(),
            0 <= k <= rings,
            out@ == side_strips(*spec, columns, outer_first).take(k as int),
        decreases rings - k,
    {
        let n: i32 = if outer_first { k } else { rings - 1 - k };
        out.push(Strip { fill: Fill::Shadow(n), width: 1, height: 1, flex: false });
        proof {
            assert(out@ =~= side_strips(*spec, columns, outer_first).take(k + 1));
        }
        k = k + 1;
    }
    proof {
        assert(out@ =~= side_strips(*spec, columns, outer_first));
    }
    out
}

/// A card was built, or could not be, in so many microseconds.
pub fn on_card_built(stats: &mut Stats, us: u64)
    ensures
        *final(stats) == (Stats {
            cards_built: next_number(old(stats).cards_built),
            card_build_us: advanced(old(stats).card_build_us, us as nat),
            ..*old(stats)
        }),
{
    stats.cards_built = bump(stats.cards_built);
    stats.card_build_us = advance(stats.card_build_us, us);
}

/// The views of a card: two ends that hold the corners, and the middle that holds the page.
pub fn build_card(spec: &CardSpec, colors: ChromeColors) -> (r: CardPlan)
    requires
        spec.valid(),
    ensures
        is_card(*spec, colors, r),
{
    let columns = match spec.orientation {
        Orientation::Columns => true,
        Orientation::Rows => false,
    };
    let first = build_end(spec, columns, true);
    let last = build_end(spec, columns, false);
    let border_insets = if columns {
        Insets { top: 1, left: 0, bottom: 1, right: 0 }
    } else {
        Insets { top: 0, left: 1, bottom: 0, right: 1 }
    };
    let pad_insets = if columns {
        Insets { top: spec.pad, left: 0, bottom: spec.pad, right: 0 }
    } else {
        Insets { top: 0, left: spec.pad, bottom: 0, right: spec.pad }
    };
    let middle = Middle {
        horizontal: !columns,
        before: build_sides(spec, columns, true),
        host_horizontal: !columns,
        border_insets,
        inner_horizontal: !spec.vertical_content,
        pad_insets,
        after: build_sides(spec, columns, false),
    };
    CardPlan { tile: spec.tile(colors), root_horizontal: columns, first, middle, last }
}

/// The thickness of a strip across the edge.
pub open spec fn thickness(columns: bool, s: Strip) -> int {
    if columns { s.width as int } else { s.height as int }
}

/// How thick the first `n` strips are together.
pub open spec fn total_thickness(columns: bool, strips: Seq<Strip>, n: int) -> int
    decreases n,
{
    if n <= 0 { 0 } else { total_thickness(columns, strips, n - 1) + thickness(columns, strips[n - 1]) }
}

proof fn shadow_thickness(spec: CardSpec, columns: bool, n: int)
    requires
        spec.valid(),
        0 <= n <= spec.shadow,
    ensures
        total_thickness(columns, edge_strips(spec, columns, true), n) == n,
    decreases n,
{
    if n > 0 {
        shadow_thickness(spec, columns, n - 1);
        assert(edge_strips(spec, columns, true)[n - 1] == edge_strip(spec, columns, n - 1));
    }
}

/// The strips between two corners are together exactly as thick as the corner images beside them.
pub proof fn an_edge_is_as_thick_as_its_corners(spec: CardSpec, columns: bool)
    requires
        spec.valid(),
        0 <= spec.shadow,
    ensures
        total_thickness(columns, edge_strips(spec, columns, true), spec.shadow + 2) == spec.arc_size(),
{
    shadow_thickness(spec, columns, spec.shadow as int);
    let strips = edge_strips(spec, columns, true);
    let n = spec.shadow as int;
    assert(strips[n] == edge_strip(spec, columns, n));
    assert(strips[n + 1] == edge_strip(spec, columns, n + 1));
    assert(total_thickness(columns, strips, n + 1) == n + 1);
    assert(total_thickness(columns, strips, n + 2) == n + 1 + thickness(columns, strips[n + 1]));
}

/// A card whose shadow, corner and side are multiples of 4 DIP keeps its page on the 4 DIP grid, and
/// has exact corner images at every scale.
#[verifier::spinoff_prover]
pub proof fn cards_on_the_grid_are_exact(spec: CardSpec, colors: ChromeColors)
    requires
        spec.valid(),
        spec.shadow % 4 == 0,
        spec.radius % 4 == 0,
        (spec.pad + 1) % 4 == 0,
    ensures
        spec.around_page().0 % 4 == 0,
        spec.around_page().1 % 4 == 0,
        exact_up_to(spec.corner_tile(colors), 9) == scales(),
{
    let tile = spec.corner_tile(colors);
    assert(tile.w % 4 == 0 && tile.h % 4 == 0);
    multiples_of_four_are_exact_everywhere(tile, 9);
    nine_scales();
}

proof fn nine_scales()
    ensures
        scales().take(9) == scales(),
{
    assert(scales().take(9) =~= scales());
}

/// The left inset that lays a card out `cut` DIP wider than its clip and that far to the left.
pub fn clip_inset(cut: i32) -> (r: i32)
    ensures
        r == (if cut > 0 { -cut } else { 0 }),
{
    if cut > 0 { -cut } else { 0 }
}

/// The masks to show again after Peek was shown again (it rose above them): those on screen.
pub open spec fn on_screen_from(masks: Seq<Mask>, i: int) -> Seq<int>
    decreases masks.len() - i,
{
    if i < 0 || i >= masks.len() {
        Seq::empty()
    } else if masks[i].visible {
        seq![i] + on_screen_from(masks, i + 1)
    } else {
        on_screen_from(masks, i + 1)
    }
}

/// The positions of the Peek page masks that are hidden and shown once more, right after Peek was.
pub fn reshow_peek_masks(masks: &Vec<Mask>) -> (r: Vec<usize>)
    ensures
        r@.map_values(|i: usize| i as int) == on_screen_from(masks@, 0),
{
    let mut out: Vec<usize> = Vec::new();
    let mut i: usize = 0;
    while i < masks.len()
        invariant
            i <= masks@.len(),
            on_screen_from(masks@, 0) == out@.map_values(|i: usize| i as int) + on_screen_from(masks@, i as int),
        decreases masks@.len() - i,
    {
        let ghost before = out@;
        if masks[i].visible {
            out.push(i);
            proof {
                assert(out@.map_values(|i: usize| i as int) =~= before.map_values(|i: usize| i as int) + seq![i as int]);
            }
        }
        proof {
            assert(on_screen_from(masks@, 0) =~= out@.map_values(|i: usize| i as int) + on_screen_from(masks@, i + 1));
        }
        i = i + 1;
    }
    proof {
        assert(on_screen_from(masks@, 0) =~= out@.map_values(|i: usize| i as int));
    }
    out
}

/// A theme change: the colors of the fills of a card (`strips` holds the alpha of each, where it is a
/// shadow strip), and the tile of its corner images.
pub fn recolor(spec: &CardSpec, colors: ChromeColors, fills: &Vec<Fill>, strips: &Vec<u8>) -> (r: (Vec<u32>, Tile))
    requires
        spec.valid(),
        strips@.len() == fills@.len(),
    ensures
        r.0@.len() == fills@.len(),
        forall|i: int| 0 <= i < fills@.len() ==> #[trigger] r.0@[i] == filled(fills@[i], *spec, colors, strips@[i]),
        r.1 == spec.corner_tile(colors),
{
    let mut out: Vec<u32> = Vec::new();
    while out.len() < fills.len()
        invariant
            out@.len() <= fills@.len(),
            strips@.len() == fills@.len(),
            forall|i: int| 0 <= i < out@.len() ==> #[trigger] out@[i] == filled(fills@[i], *spec, colors, strips@[i]),
        decreases fills@.len() - out@.len(),
    {
        let i: usize = out.len();
        let c: u32 = fill_color(fills[i], spec, colors, strips[i]);
        out.push(c);
    }
    (out, spec.tile(colors))
}

// ------------------------------------------------------------------------------ looking at the chrome

/// A color as it looks from outside: `#` and eight digits.
pub open spec fn color_spelled(color: u32) -> Seq<char> {
    "#"@ + hex(color as nat, 8)
}

fn spell_color(color: u32) -> (r: String)
    ensures
        r@ == color_spelled(color),
{
    let digits = hex_text(color as u64, 8);
    join2("#", digits.as_str())
}

/// A mask as it looks from outside.
pub struct MaskState {
    pub slot: usize,
    pub corner: Corner,
    pub visible: bool,
    pub bounds: Rect,
    pub outside: String,
    pub ring: String,
}

impl MaskState {
    /// It shows the mask.
    pub open spec fn shows(self, m: Mask) -> bool {
        &&& self.slot == m.slot && self.corner == m.corner && self.visible == m.visible && self.bounds == m.bounds
        &&& self.outside@ == color_spelled(m.tile.outside)
        &&& self.ring@ == color_spelled(m.tile.ring)
    }
}

/// The colors as they look from outside.
pub struct ColorState {
    pub frame: String,
    pub accent: String,
    pub surface: String,
    pub border: String,
    pub frame_border: String,
    pub dark: bool,
}

/// The rounded chrome as it looks from outside.
pub struct Snapshot {
    pub masks: Vec<MaskState>,
    pub peek: Vec<MaskState>,
    pub snap_unit: i32,
    pub colors: ColorState,
    pub stats: Stats,
}

fn mask_states(masks: &Vec<Mask>) -> (r: Vec<MaskState>)
    ensures
        r@.len() == masks@.len(),
        forall|i: int| 0 <= i < masks@.len() ==> (#[trigger] r@[i]).shows(masks@[i]),
{
    let mut out: Vec<MaskState> = Vec::new();
    while out.len() < masks.len()
        invariant
            out@.len() <= masks@.len(),
            forall|i: int| 0 <= i < out@.len() ==> (#[trigger] out@[i]).shows(masks@[i]),
        decreases masks@.len() - out@.len(),
    {
        let m = masks[out.len()];
        out.push(
            MaskState {
                slot: m.slot,
                corner: m.corner,
                visible: m.visible,
                bounds: m.bounds,
                outside: spell_color(m.tile.outside),
                ring: spell_color(m.tile.ring),
            },
        );
    }
    out
}

/// The rounded chrome as it looks from outside.
pub fn debug_snapshot(masks: &Vec<Mask>, peek: &Vec<Mask>, colors: ChromeColors, snap_unit: i32, stats: &Stats) -> (r: Snapshot)
    ensures
        r.stats == *stats,
        r.masks@.len() == masks@.len(),
        forall|i: int| 0 <= i < masks@.len() ==> (#[trigger] r.masks@[i]).shows(masks@[i]),
        r.peek@.len() == peek@.len(),
        forall|i: int| 0 <= i < peek@.len() ==> (#[trigger] r.peek@[i]).shows(peek@[i]),
        r.snap_unit == snap_unit,
        r.colors.frame@ == color_spelled(colors.frame),
        r.colors.accent@ == color_spelled(colors.accent),
        r.colors.surface@ == color_spelled(colors.surface),
        r.colors.border@ == color_spelled(colors.border),
        r.colors.frame_border@ == color_spelled(colors.frame_border),
        r.colors.dark == colors.dark,
{
    Snapshot {
        masks: mask_states(masks),
        peek: mask_states(peek),
        snap_unit,
        colors: ColorState {
            frame: spell_color(colors.frame),
            accent: spell_color(colors.accent),
            surface: spell_color(colors.surface),
            border: spell_color(colors.border),
            frame_border: spell_color(colors.frame_border),
            dark: colors.dark,
        },
        stats: *stats,
    }
}

// ------------------------------------------------------------------------------ what holds

/// The mask of a pane's corner covers the 12 DIP of it (a radius of 10 and a ring of 2), and reaches 4 DIP
/// beyond it to the right and the bottom, to the left where the pane does not start at the content's left
/// edge or frame is there, and to the top where it does not start at the content's top. It shows the page
/// inside the arc, the pane's ring, and frame outside. A pane that cannot hold its corners has none.
pub proof fn a_mask_covers_its_corner(
    pane: Rect,
    ring: u32,
    content: Rect,
    left_inset_is_frame: bool,
    corner: Corner,
    colors: ChromeColors,
    p: Option<(Rect, Tile)>,
)
    requires
        placed(pane, ring, content, left_inset_is_frame, corner, colors, p),
    ensures
        p is None <==> pane.width < 24 || pane.height < 24,
        p is Some ==> {
            let (r, t) = p->0;
            let left: int = if pane.x > content.x || left_inset_is_frame { 4 } else { 0 };
            let top: int = if pane.y > content.y { 4 } else { 0 };
            &&& corner == Corner::TopLeft || corner == Corner::BottomLeft ==> r.x == pane.x - left && r.x + r.width == pane.x + 12
            &&& corner == Corner::TopRight || corner == Corner::BottomRight ==> r.x == pane.x + pane.width - 12 && r.x + r.width == pane.x + pane.width + 4
            &&& corner == Corner::TopLeft || corner == Corner::TopRight ==> r.y == pane.y - top && r.y + r.height == pane.y + 12
            &&& corner == Corner::BottomLeft || corner == Corner::BottomRight ==> r.y == pane.y + pane.height - 12 && r.y + r.height == pane.y
                + pane.height + 4
            &&& t.w == r.width && t.h == r.height
            &&& t.r_in == 10 && t.r_out == 12
            &&& t.inside == 0 && t.ring == ring && t.outside == colors.frame
            &&& t.shadow == 0 && t.shadow_peak == 0
        },
{
}

/// The mask of a corner of the page in Peek covers the 8 DIP of its radius and reaches 4 beyond it on both
/// sides; it shows the page inside the arc and the card's surface outside.
pub proof fn a_peek_mask_covers_its_corner(page: Rect, corner: Corner, surface: u32, p: Option<(Rect, Tile)>)
    requires
        peek_placed(page, corner, surface, p),
    ensures
        p is None <==> page.width < 16 || page.height < 16,
        p is Some ==> {
            let (r, t) = p->0;
            &&& corner == Corner::TopLeft || corner == Corner::BottomLeft ==> r.x == page.x - 4
            &&& corner == Corner::TopRight || corner == Corner::BottomRight ==> r.x == page.x + page.width - 8
            &&& corner == Corner::TopLeft || corner == Corner::TopRight ==> r.y == page.y - 4
            &&& corner == Corner::BottomLeft || corner == Corner::BottomRight ==> r.y == page.y + page.height - 8
            &&& r.width == 12 && r.height == 12 && t.w == 12 && t.h == 12
            &&& t.r_in == 8 && t.r_out == 8
            &&& t.inside == 0 && t.ring == 0 && t.outside == surface && t.shadow == 0
        },
{
}

/// A mask with the changes carried out.
pub open spec fn with_change(mask: Mask, change: MaskChange) -> Mask {
    Mask {
        tile: match change.tile {
            Some(t) => t,
            None => mask.tile,
        },
        bounds: match change.bounds {
            Some(b) => b,
            None => mask.bounds,
        },
        visible: match change.visible {
            Some(v) => v,
            None => mask.visible,
        },
        ..mask
    }
}

/// The changes of a mask bring it to its place, with its image; one that belongs nowhere is hidden, and a
/// hidden one is shown only where that is allowed. What is right already is not changed.
pub proof fn changes_bring_a_mask_to_its_place(mask: Mask, placement: Option<(Rect, Tile)>, allow_show: bool)
    ensures
        ({
            let change = change_of(mask, placement, allow_show);
            let after = with_change(mask, change);
            &&& placement is Some ==> after.bounds == (placement->0).0 && after.tile == (placement->0).1 && after.visible == (mask.visible || allow_show)
            &&& placement is None ==> !after.visible && after.bounds == mask.bounds && after.tile == mask.tile
            &&& change_of(after, placement, allow_show) == (MaskChange { tile: None, bounds: None, visible: None })
            &&& change.visible != Some(mask.visible) && change.tile != Some(mask.tile) && change.bounds != Some(mask.bounds)
        }),
{
}

/// A mask belongs to the pane of its slot, at its corner and in its ring; without such a pane, nowhere.
pub proof fn a_mask_belongs_to_its_pane(scene: Scene, mask: Mask, p: Option<(Rect, Tile)>)
    requires
        scene.places(mask, p),
    ensures
        mask.slot >= scene.panes@.len() ==> p is None,
        mask.slot < scene.panes@.len() && p is Some ==> ({
            let pane = scene.panes@[mask.slot as int].0;
            let (r, t) = p->0;
            &&& t.ring == scene.panes@[mask.slot as int].1 && t.outside == scene.colors.frame
            &&& mask.corner == Corner::TopLeft ==> r.x <= pane.x && r.y <= pane.y && r.x + r.width == pane.x + 12 && r.y + r.height == pane.y + 12
            &&& mask.corner == Corner::BottomRight ==> r.x == pane.x + pane.width - 12 && r.y == pane.y + pane.height - 12
            &&& scene.content is None && !scene.left_inset_is_frame && mask.corner == Corner::TopLeft ==> r.x == pane.x && r.y == pane.y
        }),
        mask.slot < scene.panes@.len() && p is None ==> scene.panes@[mask.slot as int].0.width < 24 || scene.panes@[mask.slot as int].0.height < 24,
{
}

/// The corners are taken in the order top left, top right, bottom left, bottom right.
pub proof fn the_order_of_the_corners()
    ensures
        corner_number(0) == Corner::TopLeft,
        corner_number(1) == Corner::TopRight,
        corner_number(2) == Corner::BottomLeft,
        corner_number(3) == Corner::BottomRight,
{
}

/// Something was shown exactly if the number of masks that were shown is not zero.
pub proof fn what_is_shown_is_counted(changes: Seq<MaskChange>)
    ensures
        any_shown(changes) <==> switched(changes, true) > 0,
        (exists|k: int| 0 <= k < changes.len() && (#[trigger] changes[k]).visible == Some(false)) <==> switched(changes, false) > 0,
        switched(changes, true) + switched(changes, false) <= changes.len(),
    decreases changes.len(),
{
    if changes.len() > 0 {
        let front = changes.drop_last();
        what_is_shown_is_counted(front);
        assert(changes.last() == changes[changes.len() - 1]);
        if any_shown(front) {
            let k = choose|k: int| 0 <= k < front.len() && (#[trigger] front[k]).visible == Some(true);
            assert(changes[k].visible == Some(true));
        }
        if any_shown(changes) && changes.last().visible != Some(true) {
            let k = choose|k: int| 0 <= k < changes.len() && (#[trigger] changes[k]).visible == Some(true);
            assert(front[k].visible == Some(true));
        }
        if exists|k: int| 0 <= k < front.len() && (#[trigger] front[k]).visible == Some(false) {
            let k = choose|k: int| 0 <= k < front.len() && (#[trigger] front[k]).visible == Some(false);
            assert(changes[k].visible == Some(false));
        }
        if (exists|k: int| 0 <= k < changes.len() && (#[trigger] changes[k]).visible == Some(false)) && changes.last().visible != Some(false) {
            let k = choose|k: int| 0 <= k < changes.len() && (#[trigger] changes[k]).visible == Some(false);
            assert(front[k].visible == Some(false));
        }
    }
}

/// A card leaves room around its page: along its ends for the corners and their shadow, along its sides for
/// the shadow, a border of 1 and the fill.
pub proof fn a_card_leaves_room_around_its_page(spec: CardSpec, colors: ChromeColors)
    requires
        spec.valid(),
    ensures
        spec.orientation == Orientation::Rows ==> spec.around_page() == (spec.shadow + 1 + spec.pad, spec.shadow + spec.radius),
        spec.orientation == Orientation::Columns ==> spec.around_page() == (spec.shadow + spec.radius, spec.shadow + 1 + spec.pad),
        ({
            let t = spec.corner_tile(colors);
            &&& t.w == spec.shadow + spec.radius && t.h == t.w
            &&& t.r_out == spec.radius && t.r_in == spec.radius - 1
            &&& t.outside == 0 && t.shadow == spec.shadow
            &&& t.shadow_peak == (if colors.dark { 34int } else { 16 })
            &&& spec.palette == Palette::Surface ==> t.inside == colors.surface && t.ring == colors.border
            &&& spec.palette == Palette::Frame ==> t.inside == colors.frame && t.ring == colors.frame_border
        }),
{
}

/// The fills of a card: its interior in the card's color, its border in the border's, and the strips of its
/// shadow in black with the strip's alpha.
pub proof fn a_card_is_filled_in_its_colors(spec: CardSpec, colors: ChromeColors, strip: u8, i: i32)
    ensures
        filled(Fill::Shadow(i), spec, colors, strip) == strip * 0x100_0000,
        spec.palette == Palette::Surface ==> filled(Fill::Interior, spec, colors, strip) == colors.surface && filled(Fill::Border, spec, colors, strip)
            == colors.border,
        spec.palette == Palette::Frame ==> filled(Fill::Interior, spec, colors, strip) == colors.frame && filled(Fill::Border, spec, colors, strip)
            == colors.frame_border,
{
}

/// How a card is put together: a card of rows has its top corners in the first end and its bottom corners in
/// the last, one of columns its left and its right ones. From the outside in, an edge has the strips of the
/// shadow, the border and the fill, and the last end is the first one turned around. The border is 1 wide.
pub proof fn a_card_is_put_together(spec: CardSpec, colors: ChromeColors, p: CardPlan)
    requires
        spec.valid(),
        spec.shadow >= 0,
        is_card(spec, colors, p),
    ensures
        p.first.start == Corner::TopLeft && p.last.end == Corner::BottomRight,
        spec.orientation == Orientation::Rows ==> {
            &&& p.first.end == Corner::TopRight && p.last.start == Corner::BottomLeft
            &&& !p.root_horizontal && p.first.horizontal && p.last.horizontal && p.middle.horizontal
            &&& p.middle.border_insets == (Insets { top: 0, left: 1, bottom: 0, right: 1 })
            &&& p.middle.pad_insets == (Insets { top: 0, left: spec.pad, bottom: 0, right: spec.pad })
            &&& p.first.height == spec.shadow + spec.radius && p.last.height == spec.shadow + spec.radius
        },
        spec.orientation == Orientation::Columns ==> {
            &&& p.first.end == Corner::BottomLeft && p.last.start == Corner::TopRight
            &&& p.root_horizontal && !p.first.horizontal && !p.last.horizontal && !p.middle.horizontal
            &&& p.middle.border_insets == (Insets { top: 1, left: 0, bottom: 1, right: 0 })
            &&& p.middle.pad_insets == (Insets { top: spec.pad, left: 0, bottom: spec.pad, right: 0 })
            &&& p.first.width == spec.shadow + spec.radius && p.last.width == spec.shadow + spec.radius
        },
        p.middle.inner_horizontal == !spec.vertical_content,
        p.first.edge@.len() == spec.shadow + 2,
        forall|k: int| 0 <= k < spec.shadow ==> (#[trigger] p.first.edge@[k]).fill == Fill::Shadow(k as i32),
        p.first.edge@[spec.shadow as int].fill == Fill::Border,
        p.first.edge@[spec.shadow + 1].fill == Fill::Interior && p.first.edge@[spec.shadow + 1].flex,
        p.last.edge@ == p.first.edge@.reverse(),
        p.middle.before@.len() == spec.shadow && p.middle.after@ == p.middle.before@.reverse(),
        forall|k: int| 0 <= k < spec.shadow ==> (#[trigger] p.middle.before@[k]).fill == Fill::Shadow(k as i32),
{
    let columns = spec.orientation == Orientation::Columns;
    assert(p.first.edge@[spec.shadow as int] == edge_strip(spec, columns, spec.shadow as int));
    assert(p.first.edge@[spec.shadow + 1] == edge_strip(spec, columns, spec.shadow + 1));
    assert forall|k: int| 0 <= k < spec.shadow implies (#[trigger] p.first.edge@[k]).fill == Fill::Shadow(k as i32) by {
        assert(p.first.edge@[k] == edge_strip(spec, columns, k));
    }
    assert(p.last.edge@ =~= p.first.edge@.reverse());
    assert(p.middle.after@ =~= p.middle.before@.reverse());
}

/// An image has a bitmap at exactly those of the nine scales at which both of its sides are whole pixels.
pub proof fn an_image_is_exact_where_its_sides_are_whole(tile: Tile, q: i32)
    ensures
        exact_up_to(tile, 9).contains(q) <==> seq![4i32, 5, 6, 7, 8, 9, 10, 12, 14].contains(q) && (tile.w * q) % 4 == 0 && (tile.h * q) % 4 == 0,
{
    exact_so_far(tile, 9, q);
    assert(seq![4i32, 5, 6, 7, 8, 9, 10, 12, 14].take(9) =~= seq![4i32, 5, 6, 7, 8, 9, 10, 12, 14]);
}

proof fn exact_so_far(tile: Tile, n: int, q: i32)
    requires
        0 <= n <= 9,
    ensures
        exact_up_to(tile, n).contains(q) <==> seq![4i32, 5, 6, 7, 8, 9, 10, 12, 14].take(n).contains(q) && (tile.w * q) % 4 == 0 && (tile.h * q) % 4
            == 0,
    decreases n,
{
    let all = seq![4i32, 5, 6, 7, 8, 9, 10, 12, 14];
    if n > 0 {
        exact_so_far(tile, n - 1, q);
        let last = all[n - 1];
        assert(scales()[n - 1] == last);
        assert(all.take(n) =~= all.take(n - 1).push(last));
        pushed_has(all.take(n - 1), last, q);
        pushed_has(exact_up_to(tile, n - 1), last, q);
    }
}

proof fn pushed_has(s: Seq<i32>, last: i32, q: i32)
    ensures
        s.push(last).contains(q) <==> s.contains(q) || q == last,
{
    let t = s.push(last);
    if s.contains(q) {
        let k = choose|k: int| 0 <= k < s.len() && s[k] == q;
        assert(t[k] == q);
    }
    if q == last {
        assert(t[s.len() as int] == q);
    }
    if t.contains(q) {
        let k = choose|k: int| 0 <= k < t.len() && t[k] == q;
        if k < s.len() {
            assert(s[k] == q);
        }
    }
}

/// At whole scales every DIP is a whole number of pixels, at half ones every second, at others (quarters) it
/// takes four; a scale that is off by less than a hundredth counts as what it is near.
pub proof fn the_unit_suits_the_scale(n: int, off: int)
    requires
        0 <= n,
        -10_000 < off < 10_000,
    ensures
        n > 0 || off >= 0 ==> nearly_whole(n * 1_000_000 + off, 1),
        !nearly_whole(n * 1_000_000 + 500_000 + off, 1),
        nearly_whole(n * 1_000_000 + 500_000, 2),
        !nearly_whole(n * 1_000_000 + 250_000 + off, 1) && !nearly_whole(n * 1_000_000 + 250_000 + off, 2),
        !nearly_whole(n * 1_000_000 + 750_000 + off, 1) && !nearly_whole(n * 1_000_000 + 750_000 + off, 2),
{
    if off >= 0 {
        the_rest_is_left(n, off);
    } else {
        the_rest_is_left(n - 1, 1_000_000 + off);
        assert((n - 1) * 1_000_000 + (1_000_000 + off) == n * 1_000_000 + off);
    }
    the_rest_is_left(n, 500_000 + off);
    assert((n * 1_000_000 + 500_000) * 2 == (2 * n + 1) * 1_000_000 + 0);
    the_rest_is_left(2 * n + 1, 0);
    the_rest_is_left(n, 250_000 + off);
    assert((n * 1_000_000 + 250_000 + off) * 2 == (2 * n) * 1_000_000 + (500_000 + 2 * off));
    the_rest_is_left(2 * n, 500_000 + 2 * off);
    the_rest_is_left(n, 750_000 + off);
    assert((n * 1_000_000 + 750_000 + off) * 2 == (2 * n + 1) * 1_000_000 + (500_000 + 2 * off));
    the_rest_is_left(2 * n + 1, 500_000 + 2 * off);
}

proof fn the_rest_is_left(n: int, rest: int)
    requires
        0 <= rest < 1_000_000,
    ensures
        (n * 1_000_000 + rest) % 1_000_000 == rest,
{
    vstd::arithmetic::div_mod::lemma_fundamental_div_mod_converse(n * 1_000_000 + rest, 1_000_000, n, rest);
}

/// A rectangle that is made smaller is not made smaller than it has to be: no edge moves by a whole unit.
pub proof fn shrinking_moves_no_edge_too_far(r: Rect, unit: int)
    requires
        1 <= unit,
    ensures
        ({
            let e = snapped_edges(r, unit, false);
            e.0 - r.x < unit && e.1 - r.y < unit && r.right() - e.2 < unit && r.bottom() - e.3 < unit
        }),
{
    around(r.x as int, unit);
    around(r.y as int, unit);
    around(r.right(), unit);
    around(r.bottom(), unit);
}

/// A card stands in its host with its shadow on every side.
pub proof fn a_host_holds_the_shadow(card: Rect, shadow: int)
    requires
        insets(card, -shadow, -shadow),
        0 <= shadow && 0 <= card.width && 0 <= card.height,
    ensures
        ({
            let host = with_shadow(card, shadow);
            &&& card.x - host.x == shadow && card.y - host.y == shadow
            &&& host.right() - card.right() == shadow && host.bottom() - card.bottom() == shadow
        }),
{
}

/// The image that is found is one of the tile and the corner that were asked for, and one is found if there
/// is one.
pub proof fn an_image_is_found_by_tile_and_corner(list: Seq<Cached>, tile: Tile, corner: Corner)
    ensures
        match first_image(list, tile, corner) {
            Some(image) => exists|k: int| 0 <= k < list.len() && #[trigger] list[k] == (Cached { tile, corner, image }),
            None => forall|k: int| 0 <= k < list.len() ==> (#[trigger] list[k]).tile != tile || list[k].corner != corner,
        },
    decreases list.len(),
{
    if list.len() > 0 {
        if list[0].tile == tile && list[0].corner == corner {
            assert(list[0] == (Cached { tile, corner, image: list[0].image }));
        } else {
            let rest = list.skip(1);
            an_image_is_found_by_tile_and_corner(rest, tile, corner);
            match first_image(list, tile, corner) {
                Some(image) => {
                    let k = choose|k: int| 0 <= k < rest.len() && #[trigger] rest[k] == (Cached { tile, corner, image });
                    assert(list[k + 1] == (Cached { tile, corner, image }));
                },
                None => {
                    assert forall|k: int| 0 <= k < list.len() implies (#[trigger] list[k]).tile != tile || list[k].corner != corner by {
                        if k > 0 {
                            assert(list[k] == rest[k - 1]);
                        }
                    }
                },
            }
        }
    }
}

/// The masks that are shown again are those on screen.
pub proof fn the_masks_on_screen_are_shown_again(masks: Seq<Mask>, i: int, k: int)
    requires
        0 <= i,
    ensures
        on_screen_from(masks, i).contains(k) <==> i <= k < masks.len() && masks[k].visible,
    decreases masks.len() - i,
{
    if i < masks.len() {
        the_masks_on_screen_are_shown_again(masks, i + 1, k);
        let all = on_screen_from(masks, i);
        let rest = on_screen_from(masks, i + 1);
        if masks[i].visible {
            assert(all[0] == i);
            if rest.contains(k) {
                let at = choose|at: int| 0 <= at < rest.len() && rest[at] == k;
                assert(all[at + 1] == k);
            }
            if all.contains(k) && k != i {
                let at = choose|at: int| 0 <= at < all.len() && all[at] == k;
                assert(rest[at - 1] == k);
            }
        }
    }
}

/// A color is spelled as a hash sign and the eight digits of its number.
pub proof fn a_color_is_spelled_with_eight_digits(color: u32)
    ensures
        color_spelled(color).len() == 9,
        color_spelled(color)[0] == '#',
        crate::text::hex_number(color_spelled(color).skip(1)) == color,
{
    reveal_strlit("#");
    crate::text::hex_reads_back(color as nat, 8);
    reveal(vstd::arithmetic::power::pow);
    reveal_with_fuel(vstd::arithmetic::power::pow, 9);
    assert(vstd::arithmetic::power::pow(16, 8) == 0x1_0000_0000);
    assert(color_spelled(color).skip(1) =~= hex(color as nat, 8));
}

/// The measures of the rounded chrome.
pub proof fn the_measures_of_the_chrome()
    ensures
        CONTENT_RADIUS == 10 && CONTENT_RING == 2 && MASK_BLEED == 4,
        OVERLAY_RADIUS == 12 && OVERLAY_SHADOW == 8 && OVERLAY_PAD == 3,
        FIND_RADIUS == 8 && TOAST_RADIUS == 16 && SIDEBAR_SHADOW == 4,
        PEEK_PAD == 11 && PEEK_PAGE_RADIUS == 8 && SLOTS == 4 && IMAGE_CACHE_MAX == 96,
        SHADOW_PEAK_LIGHT == 16 && SHADOW_PEAK_DARK == 34,
{
}

/// Edges are snapped to whole multiples of the unit, outwards where the rectangle may grow and inwards where it
/// may not; a unit below one counts as one.
pub proof fn edges_are_snapped_to_the_unit(r: Rect, unit: i32)
    requires
        unit > 0,
    ensures
        unit_of(unit) == unit,
        unit_of(0) == 1 && forall|low: i32| low < 0 ==> #[trigger] unit_of(low) == 1,
        ({
            let out = snapped_edges(r, unit as int, true);
            let inn = snapped_edges(r, unit as int, false);
            &&& out.0 % (unit as int) == 0 && out.1 % (unit as int) == 0 && out.2 % (unit as int) == 0 && out.3 % (unit as int) == 0
            &&& inn.0 % (unit as int) == 0 && inn.1 % (unit as int) == 0 && inn.2 % (unit as int) == 0 && inn.3 % (unit as int) == 0
            &&& r.x - unit < out.0 <= r.x <= inn.0 < r.x + unit
            &&& r.y - unit < out.1 <= r.y <= inn.1 < r.y + unit
            &&& r.x + r.width - unit < inn.2 <= r.x + r.width <= out.2 < r.x + r.width + unit
            &&& r.y + r.height - unit < inn.3 <= r.y + r.height <= out.3 < r.y + r.height + unit
        }),
{
    snapped_down(r.x as int, unit as int);
    snapped_down(r.y as int, unit as int);
    snapped_down(r.right(), unit as int);
    snapped_down(r.bottom(), unit as int);
}

proof fn snapped_down(v: int, unit: int)
    requires
        unit > 0,
    ensures
        floor_to(v, unit) % unit == 0,
        ceil_to(v, unit) % unit == 0,
        v - unit < floor_to(v, unit) <= v <= ceil_to(v, unit) < v + unit,
{
    let w = v + unit - 1;
    vstd::arithmetic::div_mod::lemma_fundamental_div_mod(v, unit);
    vstd::arithmetic::div_mod::lemma_fundamental_div_mod(w, unit);
    vstd::arithmetic::div_mod::lemma_mod_bound(v, unit);
    vstd::arithmetic::div_mod::lemma_mod_bound(w, unit);
    vstd::arithmetic::mul::lemma_mul_is_commutative(v / unit, unit);
    vstd::arithmetic::mul::lemma_mul_is_commutative(w / unit, unit);
    vstd::arithmetic::div_mod::lemma_mod_multiples_basic(v / unit, unit);
    vstd::arithmetic::div_mod::lemma_mod_multiples_basic(w / unit, unit);
}

/// A mask of the peek card is placed where its page is, and not at all where there is none.
pub proof fn a_peek_mask_needs_a_page(page: Rect, corner: Corner, surface: u32, p: Option<(Rect, Tile)>)
    ensures
        peek_places(None, corner, surface, p) <==> p is None,
        peek_places(Some(page), corner, surface, p) <==> peek_placed(page, corner, surface, p),
{
}

} // verus!
