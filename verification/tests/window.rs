use sta::rect::Rect;
use sta::window::{
    accent_color, apply_chrome, check_system_animations, check_system_theme, focus_fallback_view, frame_color, init_system_animations, init_system_dark, is_dark,
    needs_theme, note_sidebar_toggled, on_draggable_regions_changed, on_setting_change, on_surface_closed, regions_applied, release_surface,
    set_sidebar_width_live, sidebar_parked, sidebar_state, CardColors, Limits, Release,
};
use sta::window::{debug_snapshot, Seen, WindowSeen};
use sta::task::{post_ui_delayed, Post};
use sta::window::{
    activate, apply_draggable_regions, begin_shutdown, build, can_close, chrome_due, clamp_sidebar_width, clamp_to_work_area, content_insets, initial_bounds, on_browser_closed,
    fatal_startup_error, is_active, is_closing, motion_snapshot, on_exit_done, on_window_activation_changed, page_fullscreen_tab, preferred_size,
    report_state, restore_sidebar, set_chrome, sidebar_width, BuildStep, on_built, Part, StartupError, Surface, Waits, set_page_fullscreen, set_sidebar, sidebar_on_screen, view_rect_in_window, window_action, Around,
    Ancestor, Chain, Effect, Region, Regions, Shell, When, WindowAction, MIN_HEIGHT, MIN_WIDTH,
};

const WIDTHS: Limits = Limits { min: 180, max: 420 };

fn around() -> Around {
    Around {
        views: true,
        ready: false,
        minimized: false,
        pointer_in_keep_zone: false,
        had_focus: false,
        floating_visible: false,
        hidden_by_setting: false,
        panel_wants_keys: false,
    }
}

const AREA: Rect = Rect { x: 0, y: 0, width: 1920, height: 1040 };

#[test]
fn a_window_is_kept_on_its_screen() {
    let inside = Rect { x: 100, y: 100, width: 1000, height: 700 };
    assert_eq!(clamp_to_work_area(inside, AREA), inside);
    assert_eq!(clamp_to_work_area(Rect { x: 1900, y: -50, width: 1000, height: 700 }, AREA), Rect { x: 920, y: 0, width: 1000, height: 700 });
    assert_eq!(clamp_to_work_area(Rect { x: 0, y: 0, width: 5000, height: 10 }, AREA), Rect { x: 0, y: 0, width: 1920, height: MIN_HEIGHT });
    assert_eq!(initial_bounds(Some(inside), Some(AREA), None), inside);
    let fresh = initial_bounds(None, None, Some(AREA));
    assert!(fresh.width >= MIN_WIDTH && fresh.x == (1920 - fresh.width) / 2);
    assert_eq!((clamp_sidebar_width(50, WIDTHS), clamp_sidebar_width(900, WIDTHS), clamp_sidebar_width(200, WIDTHS)), (180, 420, 200));
}

#[test]
fn a_view_is_found_in_its_window() {
    let rect = |x, y| Rect { x, y, width: 10, height: 10 };
    let chain = Chain {
        attached: true,
        is_window: false,
        bounds: rect(1, 2),
        above: vec![Ancestor { is_window: false, bounds: rect(10, 20) }, Ancestor { is_window: true, bounds: rect(500, 500) }],
        root_origin: None,
    };
    assert_eq!(view_rect_in_window(&chain), Some(rect(11, 22)));
    assert_eq!(view_rect_in_window(&Chain { attached: false, ..chain }), None);
}

#[test]
fn the_sidebar_goes_where_it_is_wanted() {
    let mut shell = Shell::new(248);
    restore_sidebar(&mut shell, true, 248, WIDTHS);
    let docked = content_insets(&shell);
    let out = set_sidebar(&mut shell, &around(), false, 248, WIDTHS, false);
    assert!(out.contains(&Effect::RemoveSidebar) && out.contains(&Effect::AdoptSidebar));
    assert!(shell.parked && !sidebar_on_screen(&shell, false) && sidebar_on_screen(&shell, true));
    assert_ne!(content_insets(&shell), docked);
    let out = set_sidebar(&mut shell, &around(), true, 300, WIDTHS, false);
    assert!(out.contains(&Effect::ReleaseSidebar) && out.contains(&Effect::AddSidebar));
    assert!(!shell.parked && sidebar_on_screen(&shell, false));
}

#[test]
fn a_pending_park_waits_for_the_page() {
    let mut shell = Shell::new(248);
    restore_sidebar(&mut shell, true, 248, WIDTHS);
    let ready = Around { ready: true, ..around() };
    let out = set_sidebar(&mut shell, &ready, false, 248, WIDTHS, false);
    assert!(out.contains(&Effect::BeginExit { generation: shell.park_gen }) && shell.park_pending && !shell.parked);
    let stale = shell.park_gen.wrapping_add(1);
    assert_eq!(on_exit_done(&mut shell, &ready, stale).len(), 0);
    let generation = shell.park_gen;
    assert!(on_exit_done(&mut shell, &ready, generation).contains(&Effect::AdoptSidebar));
    assert!(shell.parked);
}

#[test]
fn the_newest_colors_win() {
    let mut shell = Shell::new(248);
    assert_eq!(set_chrome(&mut shell, 90, true, false), When::Now, "the first colors");
    let When::Later { generation: first, after_ms } = set_chrome(&mut shell, 90, true, false) else { panic!() };
    let When::Later { generation: second, .. } = set_chrome(&mut shell, 90, true, false) else { panic!() };
    assert_eq!(after_ms, 90);
    assert!(!chrome_due(&shell, first) && chrome_due(&shell, second));
    assert_eq!(set_chrome(&mut shell, 90, true, true), When::Now, "minimized");
}

#[test]
fn page_fullscreen_gives_the_window_back() {
    let mut shell = Shell::new(248);
    let out = set_page_fullscreen(&mut shell, &around(), true, false, Some(4));
    assert!(out.contains(&Effect::FillContent { tab: Some(4) }) && out.contains(&Effect::SetFullscreen { on: true }));
    assert_eq!(window_action(&shell, WindowAction::ToggleFullscreen, false, true), Effect::ExitPageFullscreen { tab: 4 });
    let out = set_page_fullscreen(&mut shell, &around(), true, true, None);
    assert!(out.contains(&Effect::FillContent { tab: None }) && out.contains(&Effect::SetFullscreen { on: false }));
}

#[test]
fn areas_stay_inside_their_view() {
    let shell = Shell::new(248);
    let regions = Regions { sidebar: None, topbar: Some(vec![Region { bounds: Rect { x: 0, y: 0, width: 50, height: 10 }, draggable: true }]) };
    let out = apply_draggable_regions(&shell, &regions, None, Some(Rect { x: 248, y: 0, width: 40, height: 40 }), &vec![Rect { x: 5, y: 5, width: 1, height: 1 }]);
    assert!(out.contains(&Region { bounds: Rect { x: 248, y: 0, width: 40, height: 10 }, draggable: true }), "{out:?}");
    assert!(out.contains(&Region { bounds: Rect { x: 5, y: 5, width: 1, height: 1 }, draggable: false }));
}

#[test]
fn the_window_closes_after_its_browsers() {
    let mut shell = Shell::new(248);
    assert_eq!(can_close(&shell, 3, false), (false, Some(Effect::RequestClose)));
    assert_eq!(can_close(&shell, 3, true), (false, Some(Effect::ShutDownLater)));
    let out = begin_shutdown(&mut shell, 8000);
    assert!(shell.closing && out.contains(&Effect::CloseBrowsers) && out.contains(&Effect::ExitLater { after_ms: 8000 }));
    assert_eq!(begin_shutdown(&mut shell, 8000).len(), 0);
    assert_eq!(can_close(&shell, 3, false), (false, None));
    assert_eq!(can_close(&shell, 0, false), (true, None));
    assert_eq!(on_browser_closed(&shell, 1), None);
    assert_eq!(on_browser_closed(&shell, 0), Some(Effect::CloseWindowLater));
}

#[test]
fn a_state_is_reported_when_it_changed() {
    let mut shell = Shell::new(248);
    assert!(report_state(&mut shell, false, false, false, AREA).is_some());
    assert!(report_state(&mut shell, false, false, false, AREA).is_none());
    assert!(report_state(&mut shell, false, true, false, AREA).is_some());
}

#[test]
fn a_task_without_a_delay_is_the_next_one() {
    assert_eq!((post_ui_delayed(0), post_ui_delayed(-5), post_ui_delayed(7)), (Post::Next, Post::Next, Post::After(7)));
}

/// Builds the window: the step with this number fails, where there is one.
fn built(shell: &Shell, failing: Option<usize>) -> Vec<BuildStep> {
    let (mut stage, mut steps) = build(shell, false);
    let mut number = 0;
    while let Some(waiting) = stage {
        let (next, more) = on_built(shell, waiting, failing != Some(number));
        steps.extend(more);
        stage = next;
        number += 1;
    }
    steps
}

#[test]
fn only_a_complete_window_is_shown() {
    let mut shell = Shell::new(248);
    restore_sidebar(&mut shell, true, 248, WIDTHS);
    let show = BuildStep::Show { part: Part::Window };
    let dock = BuildStep::AddChild { parent: Part::Window, child: Part::Sidebar };
    let steps = built(&shell, None);
    assert!(steps.contains(&show) && steps.contains(&dock) && !steps.contains(&BuildStep::AdoptSidebar));
    restore_sidebar(&mut shell, false, 248, WIDTHS);
    let steps = built(&shell, None);
    assert!(steps.contains(&show) && !steps.contains(&dock) && steps.contains(&BuildStep::AdoptSidebar));
    assert_eq!(build(&shell, true), (None, vec![BuildStep::Fatal { error: StartupError::Forced }]));
    let errors = [
        StartupError::Sidebar,
        StartupError::Panel,
        StartupError::Topbar,
        StartupError::Panel,
        StartupError::Panel,
        StartupError::Empty,
        StartupError::Browser,
    ];
    for (number, error) in errors.into_iter().enumerate() {
        let steps = built(&shell, Some(number));
        assert!(!steps.contains(&show) && steps.last() == Some(&BuildStep::Fatal { error }), "{error:?}");
    }
    assert_eq!(fatal_startup_error(StartupError::Topbar, "C:/logs"), "sta could not start: the top bar view could not be created.\n\nLogs: C:/logs");
    assert_eq!((preferred_size(&shell, Surface::Sidebar), preferred_size(&shell, Surface::Topbar)), ((248, 1), (1, 40)));
}

#[test]
fn the_window_can_be_asked() {
    let mut shell = Shell::new(248);
    on_window_activation_changed(&mut shell, true);
    assert!(is_active(&shell) && !is_closing(&shell) && sidebar_width(&shell) == 248 && page_fullscreen_tab(&shell).is_none());
    assert_eq!((activate(true, true), activate(true, false), activate(false, true)), ((true, true), (false, true), (false, false)));
    let waits = Waits { hide: 1, park: 2, toast: 3, switcher: 4, fade: 5, chrome: 6 };
    assert_eq!(motion_snapshot(&shell, waits).waits, waits);
}

#[test]
fn system_settings_are_reported_when_they_change() {
    let mut shell = Shell::new(248);
    init_system_dark(&mut shell, true);
    assert!(!check_system_theme(&mut shell, true) && check_system_theme(&mut shell, false) && !check_system_theme(&mut shell, false));
    init_system_animations(&mut shell, true);
    on_setting_change(&mut shell);
    assert!(!check_system_animations(&mut shell, true) && check_system_animations(&mut shell, false));
    assert_eq!((shell.reads, shell.changes, shell.messages), (3, 1, 1), "the setting was read at the start and twice since");
}

#[test]
fn colors_are_sent_or_derived() {
    let mut shell = Shell::new(248);
    let theme = CardColors { accent: 0xFF00_0001, surface: 0xFF00_0002, border: 0xFF00_0003, frame_border: 0xFF00_0004 };
    let card = CardColors { accent: 0x0012_3456, surface: 0, border: 0, frame_border: 0 };
    assert!(needs_theme(card) && !needs_theme(theme));
    let (colors, changed) = apply_chrome(&mut shell, 0x0000_00AA, true, card, theme);
    assert_eq!((colors.frame, colors.accent, colors.surface, colors.frame_border, changed), (0xFF00_00AA, 0xFF12_3456, 0xFF00_0002, 0xFF00_0004, true));
    assert_eq!((frame_color(&shell), accent_color(&shell), is_dark(&shell)), (0xFF00_00AA, 0xFF12_3456, true));
    assert!(!apply_chrome(&mut shell, 0, true, card, theme).1);
}

#[test]
fn surfaces_take_the_focus_and_are_released() {
    let mut shell = Shell::new(248);
    restore_sidebar(&mut shell, true, 300, WIDTHS);
    assert_eq!(sidebar_state(&shell), (true, 300));
    assert_eq!(focus_fallback_view(&shell, true, true, true), Some(Surface::Empty));
    assert_eq!(focus_fallback_view(&shell, false, true, true), Some(Surface::Sidebar));
    assert_eq!(release_surface(&shell, Surface::Sidebar, true, true), Release::FromParent);
    restore_sidebar(&mut shell, false, 300, WIDTHS);
    assert!(sidebar_parked(&shell));
    assert_eq!(focus_fallback_view(&shell, false, true, true), Some(Surface::Topbar));
    assert_eq!(focus_fallback_view(&shell, false, true, false), None);
    assert_eq!(release_surface(&shell, Surface::Sidebar, false, true), Release::FromFloating);
    assert_eq!(release_surface(&shell, Surface::Topbar, false, true), Release::Nothing);
    let out = set_sidebar_width_live(&mut shell, 320, WIDTHS);
    assert!(out.contains(&Effect::LayoutOverlays) && shell.sidebar_width == 320);
    note_sidebar_toggled(&mut shell);
    assert!(!shell.panel_dock);
}

#[test]
fn draggable_areas_are_applied_once() {
    let mut shell = Shell::new(248);
    let mut regions = Regions { sidebar: None, topbar: None };
    let list = || vec![Region { bounds: Rect { x: 0, y: 0, width: 1, height: 1 }, draggable: true }];
    assert!(on_draggable_regions_changed(&mut shell, &mut regions, Surface::Topbar, list()).contains(&Effect::ApplyRegionsLater));
    assert!(on_draggable_regions_changed(&mut shell, &mut regions, Surface::Sidebar, list()).is_empty(), "it is due already");
    regions_applied(&mut shell);
    assert!(on_draggable_regions_changed(&mut shell, &mut regions, Surface::Empty, list()).is_empty());
    on_surface_closed(&mut regions, Surface::Topbar);
    assert!(regions.topbar.is_none() && regions.sidebar.is_some());
}

#[test]
fn the_sidebar_keeps_its_limits() {
    let mut shell = Shell::new(248);
    restore_sidebar(&mut shell, true, 9000, WIDTHS);
    assert_eq!(sidebar_state(&shell), (true, 420));
    set_sidebar(&mut shell, &around(), true, 1, WIDTHS, false);
    assert_eq!(shell.sidebar_width, 180);
    set_sidebar_width_live(&mut shell, 421, WIDTHS);
    assert_eq!(shell.sidebar_width, 420);
}

#[test]
fn the_window_as_it_looks_from_outside() {
    let shell = Shell::new(248);
    let bounds = Rect { x: 1, y: 2, width: 800, height: 600 };
    let window = WindowSeen { bounds, work_area: None, maximized: true, minimized: false, fullscreen: false };
    let seen = Seen { window: Some(window), sidebar_drawn: Some(true), topbar_visible: Some(false), content: Some(bounds), empty_visible: None };
    let applied = vec![Region { bounds, draggable: true }];
    let shot = debug_snapshot(&shell, &seen, &applied);
    assert!(shot.exists && shot.bounds == Some(bounds) && shot.maximized == Some(true) && shot.work_area.is_none());
    assert_eq!((shot.sidebar_width, shot.sidebar_drawn, shot.topbar_visible, shot.empty_visible), (248, Some(true), Some(false), None));
    assert_eq!((shot.frame.as_str(), shot.content_rect), ("#ff26222e", Some(bounds)));
    assert_eq!(shot.draggable_regions, applied);
    let none = debug_snapshot(&shell, &Seen { window: None, ..seen }, &vec![]);
    assert!(!none.exists && none.bounds.is_none() && none.fullscreen.is_none() && none.draggable_regions.is_empty());
}
