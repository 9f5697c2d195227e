//! Decisions around AppKit: the calls are made outside and their results come as plain values.
use crate::platform::CursorSample;
use crate::text::{ascii_lower, chars_of, copy_text, lower, opt_view, same_text};
use vstd::prelude::*;

verus! {

// ------------------------------------------------------------------------------ quitting

/// What happens when the system asks the program to quit.
#[derive(Debug, Clone, Copy, PartialEq, Eq, Structural)]
pub struct Quitting {
    /// The shell closes by itself when it is asked.
    pub handler: bool,
}

/// The answer to the system.
#[derive(Debug, Clone, Copy, PartialEq, Eq, Structural)]
pub enum TerminateReply {
    /// Not yet: the shell is told to close, and saves what it has.
    Cancel,
    /// At once: there is nothing to save.
    Now,
}

/// From now on the shell closes by itself.
pub fn set_quit_handler(state: &mut Quitting)
    ensures
        final(state).handler,
{
    state.handler = true;
}

/// The system asks the program to quit.
pub fn should_terminate(state: &Quitting) -> (r: TerminateReply)
    ensures
        r == (if state.handler { TerminateReply::Cancel } else { TerminateReply::Now }),
{
    if state.handler { TerminateReply::Cancel } else { TerminateReply::Now }
}

// ------------------------------------------------------------------------------ the menu bar

/// The keys that are held with a menu item's key.
#[derive(Debug, Clone, Copy, PartialEq, Eq, Structural)]
pub enum Modifiers {
    /// What the system takes by itself.
    Usual,
    CommandOption,
    CommandShift,
}

/// An entry of a menu.
#[derive(Debug, Clone, Copy)]
pub enum Entry {
    Separator,
    /// `action`: the message that goes up the chain of responders.
    Item { title: &'static str, action: &'static str, key: &'static str, modifiers: Modifiers },
}

/// An entry of a menu, as mathematics.
pub enum EntryModel {
    Separator,
    Item { title: Seq<char>, action: Seq<char>, key: Seq<char>, modifiers: Modifiers },
}

impl View for Entry {
    type V = EntryModel;

    open spec fn view(&self) -> EntryModel {
        match self {
            Entry::Separator => EntryModel::Separator,
            Entry::Item { title, action, key, modifiers } => EntryModel::Item { title: title@, action: action@, key: key@, modifiers: *modifiers },
        }
    }
}

/// An item without further keys.
pub open spec fn item(title: Seq<char>, action: Seq<char>, key: Seq<char>) -> EntryModel {
    EntryModel::Item { title, action, key, modifiers: Modifiers::Usual }
}

/// The menu of the application.
pub open spec fn app_menu() -> Seq<EntryModel> {
    seq![
        item("About sta"@, "orderFrontStandardAboutPanel:"@, ""@),
        EntryModel::Separator,
        item("Hide sta"@, "hide:"@, "h"@),
        EntryModel::Item { title: "Hide Others"@, action: "hideOtherApplications:"@, key: "h"@, modifiers: Modifiers::CommandOption },
        item("Show All"@, "unhideAllApplications:"@, ""@),
        EntryModel::Separator,
        item("Quit sta"@, "terminate:"@, "q"@),
    ]
}

/// The menu with the editing commands.
pub open spec fn edit_menu() -> Seq<EntryModel> {
    seq![
        item("Undo"@, "undo:"@, "z"@),
        EntryModel::Item { title: "Redo"@, action: "redo:"@, key: "z"@, modifiers: Modifiers::CommandShift },
        EntryModel::Separator,
        item("Cut"@, "cut:"@, "x"@),
        item("Copy"@, "copy:"@, "c"@),
        item("Paste"@, "paste:"@, "v"@),
        item("Select All"@, "selectAll:"@, "a"@),
    ]
}

/// The menu of the windows.
pub open spec fn window_menu() -> Seq<EntryModel> {
    seq![item("Minimize"@, "performMiniaturize:"@, "m"@), item("Zoom"@, "performZoom:"@, ""@)]
}

/// Every entry by its view.
pub open spec fn entry_views(s: Seq<Entry>) -> Seq<EntryModel> {
    s.map_values(|e: Entry| e@)
}

/// A menu of the menu bar.
pub struct Menu {
    pub title: &'static str,
    pub entries: Vec<Entry>,
    /// The system lists the windows in it.
    pub lists_windows: bool,
}

fn plain(title: &'static str, action: &'static str, key: &'static str) -> (r: Entry)
    ensures
        r@ == item(title@, action@, key@),
{
    Entry::Item { title, action, key, modifiers: Modifiers::Usual }
}

fn app_entries() -> (r: Vec<Entry>)
    ensures
        entry_views(r@) == app_menu(),
{
    let mut v: Vec<Entry> = Vec::new();
    v.push(plain("About sta", "orderFrontStandardAboutPanel:", ""));
    v.push(Entry::Separator);
    v.push(plain("Hide sta", "hide:", "h"));
    v.push(Entry::Item { title: "Hide Others", action: "hideOtherApplications:", key: "h", modifiers: Modifiers::CommandOption });
    v.push(plain("Show All", "unhideAllApplications:", ""));
    v.push(Entry::Separator);
    // Through [`should_terminate`], not straight out of the process.
    v.push(plain("Quit sta", "terminate:", "q"));
    proof {
        assert(entry_views(v@) =~= app_menu());
    }
    v
}

fn edit_entries() -> (r: Vec<Entry>)
    ensures
        entry_views(r@) == edit_menu(),
{
    let mut v: Vec<Entry> = Vec::new();
    v.push(plain("Undo", "undo:", "z"));
    v.push(Entry::Item { title: "Redo", action: "redo:", key: "z", modifiers: Modifiers::CommandShift });
    v.push(Entry::Separator);
    v.push(plain("Cut", "cut:", "x"));
    v.push(plain("Copy", "copy:", "c"));
    v.push(plain("Paste", "paste:", "v"));
    v.push(plain("Select All", "selectAll:", "a"));
    proof {
        assert(entry_views(v@) =~= edit_menu());
    }
    v
}

fn window_entries() -> (r: Vec<Entry>)
    ensures
        entry_views(r@) == window_menu(),
{
    let mut v: Vec<Entry> = Vec::new();
    v.push(plain("Minimize", "performMiniaturize:", "m"));
    v.push(plain("Zoom", "performZoom:", ""));
    proof {
        assert(entry_views(v@) =~= window_menu());
    }
    v
}

/// The menu bar. It is short on purpose: the key of a menu item never reaches the page or the shell, so
/// only what every program is expected to have stands here.
pub fn install_main_menu() -> (r: Vec<Menu>)
    ensures
        r@.len() == 3,
        r@[0].title@ == "sta"@ && entry_views(r@[0].entries@) == app_menu() && !r@[0].lists_windows,
        r@[1].title@ == "Edit"@ && entry_views(r@[1].entries@) == edit_menu() && !r@[1].lists_windows,
        r@[2].title@ == "Window"@ && entry_views(r@[2].entries@) == window_menu() && r@[2].lists_windows,
{
    let mut menus: Vec<Menu> = Vec::new();
    menus.push(Menu { title: "sta", entries: app_entries(), lists_windows: false });
    menus.push(Menu { title: "Edit", entries: edit_entries(), lists_windows: false });
    menus.push(Menu { title: "Window", entries: window_entries(), lists_windows: true });
    menus
}

/// No menu takes the key that closes a tab.
pub proof fn no_menu_takes_the_closing_key(i: int)
    ensures
        0 <= i < app_menu().len() ==> (app_menu()[i] matches EntryModel::Item { key, .. } ==> key != "w"@),
        0 <= i < edit_menu().len() ==> (edit_menu()[i] matches EntryModel::Item { key, .. } ==> key != "w"@),
        0 <= i < window_menu().len() ==> (window_menu()[i] matches EntryModel::Item { key, .. } ==> key != "w"@),
{
    reveal_strlit("w");
    reveal_strlit("");
    reveal_strlit("h");
    reveal_strlit("q");
    reveal_strlit("z");
    reveal_strlit("x");
    reveal_strlit("c");
    reveal_strlit("v");
    reveal_strlit("a");
    reveal_strlit("m");
    assert("w"@[0] == 'w');
    assert(""@.len() == 0);
    assert("h"@[0] == 'h');
    assert("q"@[0] == 'q');
    assert("z"@[0] == 'z');
    assert("x"@[0] == 'x');
    assert("c"@[0] == 'c');
    assert("v"@[0] == 'v');
    assert("a"@[0] == 'a');
    assert("m"@[0] == 'm');
    assert("w"@.len() == 1);
}

// ------------------------------------------------------------------------------ settings

/// The dark appearance is on: its name is there, in whatever case.
pub fn system_dark_mode(style: Option<&str>) -> (r: bool)
    ensures
        r == (match style {
            Some(s) => lower(s@) == "dark"@,
            None => false,
        }),
{
    match style {
        Some(s) => same_text(ascii_lower(s).as_str(), "dark"),
        None => false,
    }
}

/// The system animates unless it is asked to reduce motion.
pub fn system_animations(reduce_motion: bool) -> (r: bool)
    ensures
        r == !reduce_motion,
{
    !reduce_motion
}

/// The observer of settings.
#[derive(Debug, Clone, Copy, PartialEq, Eq, Structural)]
pub struct SettingObserver {
    pub registered: bool,
    /// Somebody is told.
    pub callback: bool,
}

/// Somebody is told from now on; only the main thread can ask for that. Returns whether the observer is
/// to be registered.
pub fn watch_setting_change(state: &mut SettingObserver, main_thread: bool) -> (r: bool)
    ensures
        r == (main_thread && !old(state).registered),
        *final(state) == (if main_thread { SettingObserver { registered: true, callback: true } } else { *old(state) }),
{
    if !main_thread {
        return false;
    }
    let first = !state.registered;
    state.callback = true;
    state.registered = true;
    first
}

/// Nobody is told any more. Returns whether the observer is to be removed.
pub fn unwatch_setting_change(state: &mut SettingObserver) -> (r: bool)
    ensures
        r == old(state).registered,
        *final(state) == (SettingObserver { registered: false, callback: false }),
{
    let there = state.registered;
    state.registered = false;
    state.callback = false;
    there
}

/// A setting changed. Returns whether somebody is told.
pub fn setting_changed(state: &SettingObserver) -> (r: bool)
    ensures
        r == state.callback,
{
    state.callback
}

/// The appearance that a window gets.
#[derive(Debug, Clone, Copy, PartialEq, Eq, Structural)]
pub enum Appearance {
    Dark,
    Light,
}

/// The appearance that a window gets: on the main thread, where there is a window.
pub open spec fn chrome_of(main_thread: bool, has_window: bool, dark: bool) -> Option<Appearance> {
    if main_thread && has_window {
        Some(if dark { Appearance::Dark } else { Appearance::Light })
    } else {
        None::<Appearance>
    }
}

/// The appearance that a window gets: on the main thread, where there is a window.
pub fn apply_window_chrome(main_thread: bool, has_window: bool, dark: bool) -> (r: Option<Appearance>)
    ensures
        r == chrome_of(main_thread, has_window, dark),
        r == (if main_thread && has_window {
            Some(if dark { Appearance::Dark } else { Appearance::Light })
        } else {
            None::<Appearance>
        }),
{
    if main_thread && has_window {
        Some(if dark { Appearance::Dark } else { Appearance::Light })
    } else {
        None
    }
}

/// The user is asked for attention: on the main thread, and only while the program is not active.
pub fn request_attention(main_thread: bool, active: bool) -> (r: bool)
    ensures
        r == (main_thread && !active),
{
    main_thread && !active
}

// ------------------------------------------------------------------------------ files

/// How a text is opened: as a file where it exists, else as an address.
#[derive(Debug, Clone, Copy, PartialEq, Eq, Structural)]
pub enum Opened {
    File,
    Address,
}

/// How a text is opened.
pub fn url_for(exists: bool) -> (r: Opened)
    ensures
        r == (if exists { Opened::File } else { Opened::Address }),
{
    if exists { Opened::File } else { Opened::Address }
}

/// The folder that the panel begins in.
pub fn initial_folder(wanted: Option<&str>) -> (r: Option<String>)
    ensures
        match r {
            Some(dir) => opt_view(wanted) == Some(dir@) && dir@.len() > 0,
            None => wanted is None || wanted->0@.len() == 0,
        },
{
    match wanted {
        Some(dir) => if chars_of(dir).len() > 0 { Some(copy_text(dir)) } else { None },
        None => None,
    }
}

/// The panel was left by its default button.
pub const MODAL_RESPONSE_OK: i64 = 1;

/// The folder that was picked: the first one that the panel names, where it was not cancelled.
pub fn run_folder_panel(response: i64, first: Option<&str>) -> (r: Option<String>)
    ensures
        match r {
            Some(dir) => response == MODAL_RESPONSE_OK && opt_view(first) == Some(dir@),
            None => response != MODAL_RESPONSE_OK || first is None,
        },
{
    if response != MODAL_RESPONSE_OK {
        return None;
    }
    match first {
        Some(dir) => Some(copy_text(dir)),
        None => None,
    }
}

/// There is no installer that could have placed the program.
pub fn msi_install_dir() -> (r: Option<String>)
    ensures
        r is None,
{
    None
}

/// The room that is left is not asked for.
pub fn free_disk_bytes(_dir: &str) -> (r: Option<u64>)
    ensures
        r is None,
{
    None
}

/// A directory may be moved to a place where nothing is.
pub fn may_move_dir(target_exists: bool) -> (r: bool)
    ensures
        r == !target_exists,
{
    !target_exists
}

/// How many bytes are hashed; the hash function takes no more than a `u32` counts.
pub fn sha256_length(len: usize) -> (r: Option<u32>)
    ensures
        match r {
            Some(n) => n == len,
            None => len > u32::MAX,
        },
{
    if len <= 0xFFFF_FFFF { Some(len as u32) } else { None }
}

// ------------------------------------------------------------------------------ the cursor

/// The buttons at the previous look at the cursor.
#[derive(Debug, Clone, Copy, PartialEq, Eq, Structural)]
pub struct Buttons {
    pub held: bool,
}

/// A look at the buttons: whether one was pressed since the previous look, and what is remembered.
pub open spec fn looked(state: Buttons, held: bool) -> (bool, Buttons) {
    (held && !state.held, Buttons { held })
}

/// What a row of looks at the buttons says, one after the other, and what is remembered in the end.
pub open spec fn looks(state: Buttons, held: Seq<bool>) -> (Seq<bool>, Buttons)
    decreases held.len(),
{
    if held.len() == 0 {
        (Seq::empty(), state)
    } else {
        let before = looks(state, held.drop_last());
        let last = looked(before.1, held.last());
        (before.0.push(last.0), last.1)
    }
}

/// A look at the buttons. Returns whether one was pressed since the previous look.
pub fn clicked(state: &mut Buttons, held: bool) -> (r: bool)
    ensures
        r == looked(*old(state), held).0,
        *final(state) == looked(*old(state), held).1,
{
    let first = held && !state.held;
    state.held = held;
    first
}

/// Every look remembers what was held, also where nothing was: in a row of looks each one reports a click
/// exactly where a button is held that was not held at the look before.
pub proof fn a_click_is_a_press_since_the_last_look(state: Buttons, held: Seq<bool>)
    ensures
        looks(state, held).0.len() == held.len(),
        looks(state, held).1.held == (if held.len() == 0 { state.held } else { held.last() }),
        forall|i: int|
            #![trigger looks(state, held).0[i]]
            0 <= i < held.len() ==> looks(state, held).0[i] == (held[i] && !(if i == 0 { state.held } else { held[i - 1] })),
    decreases held.len(),
{
    if held.len() > 0 {
        let front = held.drop_last();
        a_click_is_a_press_since_the_last_look(state, front);
        assert forall|i: int| #![trigger looks(state, held).0[i]] 0 <= i < held.len() implies looks(state, held).0[i] == (held[i] && !(if i == 0 {
            state.held
        } else {
            held[i - 1]
        })) by {
            if i < front.len() {
                assert(looks(state, held).0[i] == looks(state, front).0[i]);
            }
        }
    }
}

/// The cursor, in physical pixels with the origin at the top left of the primary display. `client`: the
/// top left of the window's content; `under`: what [`window_under`] says; `held`: a button is.
pub fn cursor_sample(state: &mut Buttons, x: i32, y: i32, client: (i32, i32), under: (bool, bool), held: bool) -> (r: CursorSample)
    ensures
        r == (CursorSample {
            x,
            y,
            client_left: client.0,
            client_top: client.1,
            over_window: under.0,
            owned_popup: under.1,
            buttons: held,
            clicked: looked(*old(state), held).0,
        }),
        *final(state) == looked(*old(state), held).1,
{
    let first = clicked(state, held);
    CursorSample {
        x,
        y,
        client_left: client.0,
        client_top: client.1,
        over_window: under.0,
        owned_popup: under.1,
        buttons: held,
        clicked: first,
    }
}

/// The window under the cursor: whether it counts as ours, and whether ours merely owns it. `under`: its
/// number; `parents`: the numbers of the windows above it, nearest first, where it is a window of the
/// program.
pub open spec fn standing_under(under: i64, ours: i64, parents: Option<Seq<i64>>) -> (bool, bool) {
    if under == ours {
        (true, false)
    } else {
        match parents {
            Some(v) => (v.contains(ours), v.contains(ours)),
            None => (false, false),
        }
    }
}

/// The window under the cursor: whether it counts as ours, and whether ours merely owns it. `under`: its
/// number; `parents`: the numbers of the windows above it, nearest first, where it is a window of the
/// program.
pub fn window_under(under: i64, ours: i64, parents: Option<&Vec<i64>>) -> (r: (bool, bool))
    ensures
        r == standing_under(under, ours, (match parents {
            Some(v) => Some(v@),
            None => None,
        })),
        r == (if under == ours {
            (true, false)
        } else {
            match parents {
                Some(v) => (v@.contains(ours), v@.contains(ours)),
                None => (false, false),
            }
        }),
{
    if under == ours {
        return (true, false);
    }
    match parents {
        None => (false, false),
        Some(v) => {
            let mut i: usize = 0;
            while i < v.len()
                invariant
                    i <= v@.len(),
                    under != ours,
                    parents == Some(v),
                    forall|k: int| 0 <= k < i ==> v@[k] != ours,
                decreases v@.len() - i,
            {
                if v[i] == ours {
                    proof {
                        assert(v@.contains(ours));
                    }
                    return (true, true);
                }
                i = i + 1;
            }
            (false, false)
        },
    }
}

/// The commands that every program is expected to have, by their keys: hiding and quitting, undoing and
/// redoing, cutting, copying, pasting and selecting all, and minimizing.
pub proof fn the_usual_keys_do_the_usual_things()
    ensures
        app_menu().contains((EntryModel::Item { title: "Hide sta"@, action: "hide:"@, key: "h"@, modifiers: Modifiers::Usual })),
        app_menu().contains(
            (EntryModel::Item { title: "Hide Others"@, action: "hideOtherApplications:"@, key: "h"@, modifiers: Modifiers::CommandOption }),
        ),
        app_menu().contains((EntryModel::Item { title: "Show All"@, action: "unhideAllApplications:"@, key: ""@, modifiers: Modifiers::Usual })),
        app_menu().contains((EntryModel::Item { title: "About sta"@, action: "orderFrontStandardAboutPanel:"@, key: ""@, modifiers: Modifiers::Usual })),
        app_menu().last() == (EntryModel::Item { title: "Quit sta"@, action: "terminate:"@, key: "q"@, modifiers: Modifiers::Usual }),
        edit_menu().contains((EntryModel::Item { title: "Undo"@, action: "undo:"@, key: "z"@, modifiers: Modifiers::Usual })),
        edit_menu().contains((EntryModel::Item { title: "Redo"@, action: "redo:"@, key: "z"@, modifiers: Modifiers::CommandShift })),
        edit_menu().contains((EntryModel::Item { title: "Cut"@, action: "cut:"@, key: "x"@, modifiers: Modifiers::Usual })),
        edit_menu().contains((EntryModel::Item { title: "Copy"@, action: "copy:"@, key: "c"@, modifiers: Modifiers::Usual })),
        edit_menu().contains((EntryModel::Item { title: "Paste"@, action: "paste:"@, key: "v"@, modifiers: Modifiers::Usual })),
        edit_menu().contains((EntryModel::Item { title: "Select All"@, action: "selectAll:"@, key: "a"@, modifiers: Modifiers::Usual })),
        window_menu().contains((EntryModel::Item { title: "Minimize"@, action: "performMiniaturize:"@, key: "m"@, modifiers: Modifiers::Usual })),
        window_menu().contains((EntryModel::Item { title: "Zoom"@, action: "performZoom:"@, key: ""@, modifiers: Modifiers::Usual })),
{
    let a = app_menu();
    assert(a.contains(a[0]) && a.contains(a[2]) && a.contains(a[3]) && a.contains(a[4]));
    let e = edit_menu();
    assert(e.contains(e[0]) && e.contains(e[1]) && e.contains(e[3]) && e.contains(e[4]) && e.contains(e[5]) && e.contains(e[6]));
    let w = window_menu();
    assert(w.contains(w[0]) && w.contains(w[1]));
}

/// A window gets the appearance of its theme, on the main thread and where there is one.
pub proof fn a_window_looks_like_its_theme(dark: bool, main_thread: bool, has_window: bool)
    ensures
        chrome_of(true, true, true) == Some(Appearance::Dark),
        chrome_of(true, true, false) == Some(Appearance::Light),
        chrome_of(false, has_window, dark) is None,
        chrome_of(main_thread, false, dark) is None,
{
}

/// The pointer is over our window where that is under it; where a window below ours is, it counts as ours and as
/// one that is owned; over any other it is elsewhere.
pub proof fn a_window_below_ours_counts_as_ours(under: i64, ours: i64, parents: Seq<i64>)
    ensures
        standing_under(ours, ours, Some(parents)) == (true, false),
        under != ours && parents.contains(ours) ==> standing_under(under, ours, Some(parents)) == (true, true),
        under != ours && !parents.contains(ours) ==> standing_under(under, ours, Some(parents)) == (false, false),
        under != ours ==> standing_under(under, ours, None) == (false, false),
{
}

} // verus!
