use sta::rect::Rect;
use sta::rounded::{
    cached_image, clip_inset, layout_peek_masks, remember_image, retile, Cached, IMAGE_CACHE_MAX,
    create_masks, create_peek_masks, exact_scales, host_rect, inset, layout_masks, mask_placement, mask_tile, mirrored, peek_mask_placement, recolor,
    reshow_peek_masks, snap_rect, snap_unit, window_snap_unit, debug_snapshot, on_card_built, Stats, Fill, CardSpec, ChromeColors, Corner, Mask, Orientation, Palette, Scene, Tile, FIND_RADIUS, MASK_BLEED, OVERLAY_PAD, OVERLAY_RADIUS,
    OVERLAY_SHADOW, PEEK_PAD, SIDEBAR_SHADOW, TOAST_RADIUS,
};

/// The scales that images are made for.
const SCALES: usize = 9;

/// A scale factor in millionths.
fn millionths(scale: f32) -> u32 {
    (scale as f64 * 1_000_000.0).round() as u32
}

const COLORS_T: ChromeColors =
    ChromeColors { frame: 0xFF11_2233, accent: 0xFF44_5566, surface: 0xFF23_2228, border: 0xFF39_383E, frame_border: 0xFF30_3040, dark: true };

#[test]
fn every_card_is_on_the_4_dip_grid() {
    let specs = [
        CardSpec { radius: OVERLAY_RADIUS, shadow: OVERLAY_SHADOW, pad: OVERLAY_PAD, orientation: Orientation::Rows, vertical_content: false, palette: Palette::Surface },
        CardSpec { radius: OVERLAY_RADIUS, shadow: OVERLAY_SHADOW, pad: PEEK_PAD, orientation: Orientation::Rows, vertical_content: true, palette: Palette::Surface },
        CardSpec { radius: FIND_RADIUS, shadow: OVERLAY_SHADOW, pad: OVERLAY_PAD, orientation: Orientation::Columns, vertical_content: false, palette: Palette::Surface },
        CardSpec { radius: TOAST_RADIUS, shadow: OVERLAY_SHADOW, pad: OVERLAY_PAD, orientation: Orientation::Columns, vertical_content: false, palette: Palette::Surface },
        CardSpec { radius: OVERLAY_RADIUS, shadow: SIDEBAR_SHADOW, pad: OVERLAY_PAD, orientation: Orientation::Rows, vertical_content: false, palette: Palette::Frame },
    ];
    for spec in specs {
        let (h, v) = spec.chrome();
        assert!(h % 4 == 0 && v % 4 == 0 && spec.shadow % 4 == 0, "{spec:?}: chrome {h}x{v}");
        let tile = spec.tile(COLORS_T);
        assert_eq!(exact_scales(&tile).len(), SCALES, "{spec:?}: exact images at every scale");
    }
    let peek = peek_mask_placement(&Rect { x: 0, y: 0, width: 100, height: 100 }, Corner::TopLeft, 0).unwrap().1;
    assert_eq!(exact_scales(&peek).len(), SCALES);
    let mask = mask_tile(0, 0, MASK_BLEED, 0);
    assert_eq!(exact_scales(&mask).len(), SCALES);
    assert_eq!(exact_scales(&mask_tile(0, 0, 0, 0)).len(), SCALES);
    // A 13 DIP image would have no exact 150 % bitmap (the spike's ringing).
    let odd = Tile { w: 13, ..mask };
    assert!(!exact_scales(&odd).contains(&6), "six quarters");
}

#[test]
fn snapping() {
    assert_eq!(snap_unit(millionths(1.0)), 1);
    assert_eq!(snap_unit(millionths(2.0)), 1);
    assert_eq!(snap_unit(millionths(1.5)), 2);
    assert_eq!(snap_unit(millionths(2.5)), 2);
    assert_eq!(snap_unit(millionths(1.25)), 4);
    assert_eq!(snap_unit(millionths(1.75)), 4);
    assert_eq!(snap_unit(millionths(1.1)), 4);
    let r = Rect { x: 5, y: 6, width: 11, height: 13 };
    let g = snap_rect(&r, 4, true);
    assert_eq!((g.x, g.y, g.width, g.height), (4, 4, 12, 16));
    let s = snap_rect(&r, 4, false);
    assert_eq!((s.x, s.y, s.width, s.height), (8, 8, 8, 8));
    let n = snap_rect(&Rect { x: -3, y: 0, width: 2, height: 1 }, 4, true);
    assert_eq!((n.x, n.width), (-4, 4));
    let same = snap_rect(&r, 1, true);
    assert_eq!((same.x, same.y, same.width, same.height), (5, 6, 11, 13));
    for scale in [1.25f32, 1.5, 1.75, 2.25] {
        let u = snap_unit(millionths(scale));
        let g = snap_rect(&Rect { x: 293, y: 117, width: 587, height: 301 }, u, true);
        for v in [g.x, g.y, g.x + g.width, g.y + g.height] {
            assert!(((v as f32 * scale) - (v as f32 * scale).round()).abs() < 0.001, "{scale}: {v}");
        }
    }
    // Host rects: the card grows by its shadow, then snaps.
    let spec = CardSpec { radius: 12, shadow: 8, pad: 3, orientation: Orientation::Rows, vertical_content: false, palette: Palette::Surface };
    let h = host_rect(&Rect { x: 301, y: 113, width: 587, height: 97 }, &spec, 4, true);
    assert_eq!((h.x, h.y, h.width, h.height), (292, 104, 604, 116));
    let i = inset(&h, spec.chrome().0, spec.chrome().1);
    assert_eq!((i.x, i.y, i.width, i.height), (304, 124, 580, 76));
}

#[test]
fn mask_placement_bleeds_only_into_frame() {
    let content = Rect { x: 248, y: 40, width: 1000, height: 700 };
    let c = COLORS_T;
    let at = |pane: &Rect, ring, hidden, corner| mask_placement(pane, ring, &content, hidden, corner, c).map(|(r, t)| ([r.x, r.y, r.width, r.height], t.ring));
    // A single pane with the sidebar docked: no bleed to the left or top.
    let single = content;
    assert_eq!(at(&single, c.frame, false, Corner::TopLeft), Some(([248, 40, 12, 12], c.frame)));
    assert_eq!(at(&single, c.frame, false, Corner::TopRight), Some(([1236, 40, 16, 12], c.frame)));
    assert_eq!(at(&single, c.frame, false, Corner::BottomLeft), Some(([248, 728, 12, 16], c.frame)));
    assert_eq!(at(&single, c.frame, false, Corner::BottomRight), Some(([1236, 728, 16, 16], c.frame)));
    // Sidebar hidden: the left inset is frame.
    assert_eq!(at(&single, c.frame, true, Corner::TopLeft), Some(([244, 40, 16, 12], c.frame)));
    // The right pane of a split bleeds into the gap; the focused one gets the accent ring.
    let right = Rect { x: 751, y: 40, width: 497, height: 700 };
    assert_eq!(at(&right, c.accent, false, Corner::TopLeft), Some(([747, 40, 16, 12], c.accent)));
    // An agent-framed pane: the ring takes the agent color, outside stays frame.
    let agent = 0xFFE8_641B;
    assert_eq!(at(&right, agent, false, Corner::BottomRight), Some(([1236, 728, 16, 16], agent)));
    assert_eq!(mask_placement(&right, agent, &content, false, Corner::TopRight, c).map(|(_, t)| t.outside), Some(c.frame));
    // The bottom pane of a vertical split bleeds upwards.
    let bottom = Rect { x: 248, y: 393, width: 1000, height: 347 };
    assert_eq!(at(&bottom, c.frame, false, Corner::TopRight), Some(([1236, 389, 16, 16], c.frame)));
    // Too small for its corners.
    assert_eq!(at(&Rect { x: 248, y: 40, width: 23, height: 100 }, c.frame, false, Corner::TopLeft), None);
}

#[test]
fn masks_are_created_for_every_corner_of_every_slot() {
    let seeds = create_masks(COLORS_T);
    assert_eq!(seeds.len(), 16);
    assert_eq!((seeds[0].slot, seeds[0].corner), (0, Corner::TopLeft));
    assert_eq!((seeds[15].slot, seeds[15].corner), (3, Corner::BottomRight));
    let peek = create_peek_masks(0xFF00_FF00);
    assert_eq!(peek.len(), 4);
    assert!(peek.iter().all(|s| s.slot == 0 && s.tile.outside == 0xFF00_FF00 && (s.tile.w, s.tile.h) == (12, 12)));
}

#[test]
fn a_mask_is_shown_only_when_it_may_be() {
    let content = Rect { x: 248, y: 40, width: 1000, height: 700 };
    let scene = Scene { panes: vec![(content, COLORS_T.frame)], content: Some(content), left_inset_is_frame: false, colors: COLORS_T };
    let masks: Vec<Mask> = create_masks(COLORS_T)
        .into_iter()
        .map(|s| Mask { slot: s.slot, corner: s.corner, tile: s.tile, bounds: Rect { x: 0, y: 0, width: 0, height: 0 }, visible: false })
        .collect();
    let mut stats = Stats::new();
    let (changes, shown) = layout_masks(false, &masks, &scene, &mut stats).unwrap();
    assert!(shown);
    assert_eq!(changes[0].visible, Some(true));
    assert_eq!(changes[0].bounds, Some(Rect { x: 248, y: 40, width: 12, height: 12 }));
    assert_eq!(changes[4].visible, None, "no pane in that slot, and it was hidden");
    assert!(layout_masks(true, &masks, &scene, &mut stats).is_none(), "nothing moves while the window closes");
    assert_eq!((stats.mask_layouts, stats.mask_shows, stats.mask_hides, stats.restacks), (1, 4, 0, 1));
    let visible: Vec<Mask> = masks.iter().map(|m| Mask { visible: true, ..*m }).collect();
    assert!(layout_masks(false, &visible, &scene, &mut stats).is_some_and(|(_, shown)| !shown));
    assert_eq!((stats.mask_layouts, stats.mask_shows, stats.mask_hides, stats.restacks), (2, 4, 12, 1));
}

#[test]
fn corners_are_mirrored() {
    assert_eq!(mirrored(Corner::TopLeft, 1, 2, 10, 20), (1, 2));
    assert_eq!(mirrored(Corner::TopRight, 1, 2, 10, 20), (8, 2));
    assert_eq!(mirrored(Corner::BottomRight, 1, 2, 10, 20), (8, 17));
}

#[test]
fn a_theme_change_recolors_a_card() {
    let spec = CardSpec { radius: 12, shadow: 8, pad: 3, orientation: Orientation::Rows, vertical_content: false, palette: Palette::Surface };
    let (fills, tile) = recolor(&spec, COLORS_T, &vec![Fill::Interior, Fill::Border, Fill::Shadow(0)], &vec![0, 0, 7]);
    assert_eq!(fills, [COLORS_T.surface, COLORS_T.border, 0x0700_0000]);
    assert_eq!(tile, spec.tile(COLORS_T));
}

#[test]
fn the_chrome_as_it_looks_from_outside() {
    assert_eq!((window_snap_unit(None), window_snap_unit(Some(1_500_000))), (4, 2));
    let tile = mask_tile(0xFF00_0001, 0xFF00_0002, 4, 4);
    let mask = |visible| Mask { slot: 1, corner: Corner::TopRight, tile, bounds: Rect { x: 1, y: 2, width: 3, height: 4 }, visible };
    assert_eq!(reshow_peek_masks(&vec![mask(true), mask(false), mask(true)]), [0, 2]);
    let mut stats = Stats::new();
    on_card_built(&mut stats, 250);
    let shot = debug_snapshot(&vec![mask(true)], &vec![], COLORS_T, 4, &stats);
    assert_eq!((shot.stats.cards_built, shot.stats.card_build_us), (1, 250));
    assert_eq!((shot.masks[0].outside.as_str(), shot.masks[0].ring.as_str(), shot.masks[0].visible), ("#ff000001", "#ff000002", true));
    assert_eq!((shot.colors.frame.as_str(), shot.peek.len()), ("#ff112233", 0));
}

#[test]
fn images_are_kept_up_to_a_number() {
    let tile = mask_tile(1, 2, 0, 0);
    let mut list: Vec<Cached> = Vec::new();
    let mut stats = Stats::new();
    for image in 0..IMAGE_CACHE_MAX as u64 + 1 {
        remember_image(&mut list, &mut stats, Cached { tile: Tile { ring: image as u32, ..tile }, corner: Corner::TopLeft, image }, 3);
    }
    assert_eq!(list.len(), IMAGE_CACHE_MAX);
    assert_eq!(cached_image(&list, &mut stats, &Tile { ring: 0, ..tile }, Corner::TopLeft), None, "the oldest went");
    assert_eq!(cached_image(&list, &mut stats, &Tile { ring: 5, ..tile }, Corner::TopLeft), Some(5));
    assert_eq!(cached_image(&list, &mut stats, &Tile { ring: 5, ..tile }, Corner::TopRight), None);
    assert_eq!((stats.images_built, stats.image_build_us, stats.cache_hits), (97, 291, 1));
    assert_eq!((clip_inset(12), clip_inset(-3)), (-12, 0));
}

#[test]
fn peek_masks_follow_the_page() {
    let tile = mask_tile(1, 2, 0, 0);
    let hidden = Mask { slot: 0, corner: Corner::TopLeft, tile, bounds: Rect { x: 0, y: 0, width: 0, height: 0 }, visible: false };
    let page = Rect { x: 100, y: 100, width: 400, height: 300 };
    let (changes, shown) = layout_peek_masks(&vec![hidden], Some(page), 0xFF00_0009, true);
    assert!(shown && changes[0].visible == Some(true) && changes[0].bounds.is_some());
    let (changes, shown) = layout_peek_masks(&vec![hidden], Some(page), 0xFF00_0009, false);
    assert!(!shown && changes[0].visible.is_none());
    let (changes, _) = layout_peek_masks(&vec![Mask { visible: true, ..hidden }], None, 0, true);
    assert_eq!(changes[0].visible, Some(false));
    let mut masks = vec![hidden, Mask { corner: Corner::TopRight, ..hidden }];
    retile(&mut masks, 0, Corner::TopRight, Tile { ring: 77, ..tile });
    assert_eq!((masks[0].tile.ring, masks[1].tile.ring), (2, 77));
}
