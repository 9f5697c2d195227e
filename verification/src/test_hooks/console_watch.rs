//! Console windows on the desktop.
//!
//! Every console window is recorded the moment it is shown, so that one which only flashes is seen
//! too, together with the ancestry of its process while that can still be read. Whether a window is
//! `ours` is a hint: the default terminal may own it in place of the process that wanted it, and then
//! only the title tells.
use crate::json::{json_quoted, json_string, list_of, truth_spelled, truth_text, write_list};
use crate::text::{
    ascii_lower, contains_text, copy_text, decimal, decimal_text, join3, joined_by, lower, occurs, one_more_member_follows, same_text, signed_decimal, signed_text, text_views,
};
use vstd::prelude::*;

verus! {

/// The windows that are kept.
pub const KEPT: usize = 500;

/// The generations of a process that are followed.
pub const GENERATIONS: u32 = 32;

/// A console window that was shown.
pub struct Seen {
    pub hwnd: isize,
    pub pid: u32,
    pub class: String,
    pub title: String,
    pub shown_at: u64,
    /// The process and its ancestors, youngest first.
    pub chain: Vec<u32>,
}

/// A console window that was shown, as mathematics.
#[verifier::ext_equal]
pub struct SeenModel {
    pub hwnd: isize,
    pub pid: u32,
    pub class: Seq<char>,
    pub title: Seq<char>,
    pub shown_at: u64,
    pub chain: Seq<u32>,
}

impl View for Seen {
    type V = SeenModel;

    open spec fn view(&self) -> SeenModel {
        SeenModel {
            hwnd: self.hwnd,
            pid: self.pid,
            class: self.class@,
            title: self.title@,
            shown_at: self.shown_at,
            chain: self.chain@,
        }
    }
}

/// What was seen so far.
pub struct Watch {
    /// The hook that reports the windows (0: none).
    pub hook: isize,
    /// Oldest first.
    pub seen: Vec<Seen>,
}

/// Every window by its view.
pub open spec fn seen_views(s: Seq<Seen>) -> Seq<SeenModel> {
    s.map_values(|e: Seen| e@)
}

impl Watch {
    /// No more is kept than is wanted.
    pub open spec fn valid(self) -> bool {
        self.seen@.len() <= KEPT
    }

    pub fn new() -> (r: Watch)
        ensures
            r.hook == 0,
            r.seen@.len() == 0,
            r.valid(),
    {
        Watch { hook: 0, seen: Vec::new() }
    }
}

// ------------------------------------------------------------------------------ classes

/// A window class of a console: the classic window, a pseudo console, the host of the terminal.
pub open spec fn console_class(class: Seq<char>) -> bool {
    class == "ConsoleWindowClass"@ || class == "PseudoConsoleWindow"@ || class == "CASCADIA_HOSTING_WINDOW_CLASS"@
}

/// A window class that the user sees: the host window of a pseudo console is not one.
pub open spec fn visible_class(class: Seq<char>) -> bool {
    class == "ConsoleWindowClass"@ || class == "CASCADIA_HOSTING_WINDOW_CLASS"@
}

pub fn is_console(class: &str) -> (r: bool)
    ensures
        r == console_class(class@),
{
    same_text(class, "ConsoleWindowClass") || same_text(class, "PseudoConsoleWindow") || same_text(class, "CASCADIA_HOSTING_WINDOW_CLASS")
}

pub fn user_visible(class: &str) -> (r: bool)
    ensures
        r == visible_class(class@),
{
    same_text(class, "ConsoleWindowClass") || same_text(class, "CASCADIA_HOSTING_WINDOW_CLASS")
}

// ------------------------------------------------------------------------------ ancestry

/// The parent of a process: the first entry for it from position `i` on.
pub open spec fn parent_of(parents: Seq<(u32, u32)>, pid: u32, i: int) -> Option<u32>
    decreases parents.len() - i,
{
    if i < 0 || i >= parents.len() {
        None
    } else if parents[i].0 == pid {
        Some(parents[i].1)
    } else {
        parent_of(parents, pid, i + 1)
    }
}

/// A chain of processes, carried on by at most `left` generations: it ends where the parent is not
/// known, is 0, or has been met.
pub open spec fn climbed(parents: Seq<(u32, u32)>, chain: Seq<u32>, left: nat) -> Seq<u32>
    decreases left,
{
    if left == 0 {
        chain
    } else {
        match parent_of(parents, chain.last(), 0) {
            Some(parent) => if parent == 0 || chain.contains(parent) {
                chain
            } else {
                climbed(parents, chain.push(parent), (left - 1) as nat)
            },
            None => chain,
        }
    }
}

fn find_parent(parents: &[(u32, u32)], pid: u32) -> (r: Option<u32>)
    ensures
        r == parent_of(parents@, pid, 0),
{
    let mut i: usize = 0;
    while i < parents.len()
        invariant
            i <= parents@.len(),
            parent_of(parents@, pid, i as int) == parent_of(parents@, pid, 0),
        decreases parents@.len() - i,
    {
        if parents[i].0 == pid {
            return Some(parents[i].1);
        }
        i = i + 1;
    }
    None
}

fn lists(v: &[u32], x: u32) -> (r: bool)
    ensures
        r == v@.contains(x),
{
    let mut i: usize = 0;
    while i < v.len()
        invariant
            i <= v@.len(),
            forall|k: int| 0 <= k < i ==> v@[k] != x,
        decreases v@.len() - i,
    {
        if v[i] == x {
            return true;
        }
        i = i + 1;
    }
    false
}

/// A process and its ancestors, youngest first, by a table of processes and their parents.
pub fn chain_of(parents: &[(u32, u32)], pid: u32) -> (r: Vec<u32>)
    ensures
        r@ == climbed(parents@, seq![pid], GENERATIONS as nat),
{
    let mut chain: Vec<u32> = Vec::new();
    chain.push(pid);
    let mut left: u32 = GENERATIONS;
    proof {
        assert(chain@ =~= seq![pid]);
    }
    while left > 0
        invariant
            chain@.len() > 0,
            climbed(parents@, chain@, left as nat) == climbed(parents@, seq![pid], GENERATIONS as nat),
        ensures
            chain@ == climbed(parents@, seq![pid], GENERATIONS as nat),
        decreases left,
    {
        let last: usize = chain.len() - 1;
        match find_parent(parents, chain[last]) {
            Some(parent) => {
                if parent == 0 || lists(chain.as_slice(), parent) {
                    break;
                }
                chain.push(parent);
            },
            None => {
                break;
            },
        }
        left = left - 1;
    }
    chain
}

/// A chain keeps what it started with, repeats no process, and is bounded.
pub proof fn a_chain_never_loops(parents: Seq<(u32, u32)>, chain: Seq<u32>, left: nat)
    requires
        chain.len() > 0,
        chain.no_duplicates(),
    ensures
        chain.is_prefix_of(climbed(parents, chain, left)),
        climbed(parents, chain, left).no_duplicates(),
        climbed(parents, chain, left).len() <= chain.len() + left,
    decreases left,
{
    if left > 0 {
        match parent_of(parents, chain.last(), 0) {
            Some(parent) => {
                if parent != 0 && !chain.contains(parent) {
                    let next = chain.push(parent);
                    assert forall|i: int, j: int| 0 <= i < next.len() && 0 <= j < next.len() && i != j implies next[i] != next[j] by {
                        if i < chain.len() && j < chain.len() {
                            assert(chain[i] != chain[j]);
                        } else if i < chain.len() {
                            assert(chain.contains(chain[i]));
                        } else {
                            assert(chain.contains(chain[j]));
                        }
                    }
                    a_chain_never_loops(parents, next, (left - 1) as nat);
                    let whole = climbed(parents, next, (left - 1) as nat);
                    assert(whole.take(chain.len() as int) =~= chain) by {
                        assert(whole.take(next.len() as int) =~= next);
                        assert forall|i: int| 0 <= i < chain.len() implies whole[i] == chain[i] by {
                            assert(whole.take(next.len() as int)[i] == next[i]);
                        }
                    }
                }
            },
            None => {},
        }
    }
}

// ------------------------------------------------------------------------------ attribution

/// One of the processes is one of the roots.
pub open spec fn descends(chain: Seq<u32>, roots: Seq<u32>) -> bool {
    exists|i: int| 0 <= i < chain.len() && roots.contains(#[trigger] chain[i])
}

/// A window that one of the roots answers for: its process descends from it, or the title names our own
/// program (`exe`, in lower case).
pub open spec fn belongs(s: SeenModel, roots: Seq<u32>, exe: Seq<char>) -> bool {
    descends(s.chain, roots) || (exe.len() > 0 && occurs(lower(s.title), exe))
}

/// The path of our own program as it is looked for.
pub fn our_exe(path: Option<&str>) -> (r: String)
    ensures
        r@ == (match path {
            Some(p) => lower(p@),
            None => Seq::empty(),
        }),
{
    match path {
        Some(p) => ascii_lower(p),
        None => String::new(),
    }
}

fn any_root(chain: &[u32], roots: &[u32]) -> (r: bool)
    ensures
        r == descends(chain@, roots@),
{
    let mut i: usize = 0;
    while i < chain.len()
        invariant
            i <= chain@.len(),
            forall|k: int| 0 <= k < i ==> !roots@.contains(#[trigger] chain@[k]),
        decreases chain@.len() - i,
    {
        if lists(roots, chain[i]) {
            return true;
        }
        i = i + 1;
    }
    false
}

pub fn attributed(s: &Seen, roots: &[u32], exe: &str) -> (r: bool)
    ensures
        r == belongs(s@, roots@, exe@),
{
    if any_root(s.chain.as_slice(), roots) {
        return true;
    }
    if same_text(exe, "") {
        proof {
            reveal_strlit("");
        }
        return false;
    }
    proof {
        reveal_strlit("");
        if exe@.len() == 0 {
            assert(exe@ =~= ""@);
        }
    }
    let title = ascii_lower(s.title.as_str());
    contains_text(title.as_str(), exe)
}

// ------------------------------------------------------------------------------ recording

/// The windows that are kept after one more.
pub open spec fn with_seen(seen: Seq<SeenModel>, s: SeenModel) -> Seq<SeenModel> {
    if seen.len() >= KEPT { seen.skip(1).push(s) } else { seen.push(s) }
}

/// A window was shown. One that is no console window is not recorded; the oldest gives way.
pub fn record(state: &mut Watch, hwnd: isize, pid: u32, class: String, title: String, shown_at: u64, parents: &[(u32, u32)])
    requires
        old(state).valid(),
    ensures
        final(state).valid(),
        final(state).hook == old(state).hook,
        seen_views(final(state).seen@) == (if console_class(class@) {
            with_seen(
                seen_views(old(state).seen@),
                (SeenModel { hwnd, pid, class: class@, title: title@, shown_at, chain: climbed(parents@, seq![pid], GENERATIONS as nat) }),
            )
        } else {
            seen_views(old(state).seen@)
        }),
{
    if !is_console(class.as_str()) {
        return;
    }
    let chain = chain_of(parents, pid);
    let s = Seen { hwnd, pid, class, title, shown_at, chain };
    let ghost before = state.seen@;
    if state.seen.len() >= KEPT {
        let _ = state.seen.remove(0);
        proof {
            assert(seen_views(state.seen@) =~= seen_views(before).skip(1));
        }
    }
    let ghost middle = state.seen@;
    state.seen.push(s);
    proof {
        assert(seen_views(state.seen@) =~= seen_views(middle).push(s@));
    }
}

/// Forgets what was seen.
pub fn reset(state: &mut Watch)
    ensures
        final(state).valid(),
        final(state).hook == old(state).hook,
        final(state).seen@.len() == 0,
{
    state.seen.clear();
}

/// Something reports the windows.
pub fn installed(state: &Watch) -> (r: bool)
    ensures
        r == (state.hook != 0),
{
    state.hook != 0
}

/// The hook is made at most once: a `hook` that was made just now is taken where there is none. Returns
/// whether it was.
pub fn install(state: &mut Watch, hook: isize) -> (r: bool)
    ensures
        r == (old(state).hook == 0),
        final(state).hook == (if r { hook } else { old(state).hook }),
        final(state).seen == old(state).seen,
{
    if state.hook != 0 {
        return false;
    }
    state.hook = hook;
    true
}

/// Nothing is watched any more. Returns the hook that is to be removed.
pub fn uninstall(state: &mut Watch) -> (r: Option<isize>)
    ensures
        r == (if old(state).hook != 0 { Some(old(state).hook) } else { None::<isize> }),
        final(state).hook == 0,
        final(state).seen == old(state).seen,
{
    let hook: isize = state.hook;
    state.hook = 0;
    if hook != 0 { Some(hook) } else { None }
}

// ------------------------------------------------------------------------------ the report

/// A window on the desktop.
pub struct Window {
    pub hwnd: isize,
    pub pid: u32,
    pub class: String,
    pub title: String,
    pub visible: bool,
}

/// The positions of the console windows that are visible, from `i` on.
pub open spec fn console_positions(windows: Seq<Window>, i: int) -> Seq<int>
    decreases windows.len() - i,
{
    if i < 0 || i >= windows.len() {
        Seq::empty()
    } else if windows[i].visible && console_class(windows[i].class@) {
        seq![i] + console_positions(windows, i + 1)
    } else {
        console_positions(windows, i + 1)
    }
}

/// The console windows that are visible right now, by their positions.
pub fn current(windows: &Vec<Window>) -> (r: Vec<usize>)
    ensures
        r@.map_values(|k: usize| k as int) == console_positions(windows@, 0),
{
    let mut out: Vec<usize> = Vec::new();
    let total: usize = windows.len();
    let mut i: usize = 0;
    let ghost whole = console_positions(windows@, 0);
    proof {
        assert(out@.map_values(|k: usize| k as int) + whole =~= whole);
    }
    while i < total
        invariant
            i <= total,
            total == windows@.len(),
            whole == out@.map_values(|k: usize| k as int) + console_positions(windows@, i as int),
        decreases total - i,
    {
        if windows[i].visible && is_console(windows[i].class.as_str()) {
            let ghost before = out@;
            out.push(i);
            proof {
                assert(before.map_values(|k: usize| k as int) + (seq![i as int] + console_positions(windows@, i + 1)) =~= out@.map_values(
                    |k: usize| k as int,
                ) + console_positions(windows@, i + 1));
            }
        }
        i = i + 1;
    }
    proof {
        assert(out@.map_values(|k: usize| k as int) + Seq::<int>::empty() =~= out@.map_values(|k: usize| k as int));
    }
    out
}

/// What is said of a window that was seen.
pub struct Entry {
    pub seen: Seen,
    pub user_visible: bool,
    /// Some other program may own it.
    pub hosted: bool,
    pub ours: bool,
}

/// What is said of a window that was seen, as mathematics.
#[verifier::ext_equal]
pub struct EntryModel {
    pub seen: SeenModel,
    pub user_visible: bool,
    pub hosted: bool,
    pub ours: bool,
}

impl View for Entry {
    type V = EntryModel;

    open spec fn view(&self) -> EntryModel {
        EntryModel { seen: self.seen@, user_visible: self.user_visible, hosted: self.hosted, ours: self.ours }
    }
}

/// What is said of a window.
pub open spec fn told(s: SeenModel, roots: Seq<u32>, exe: Seq<char>) -> EntryModel {
    EntryModel {
        seen: s,
        user_visible: visible_class(s.class),
        hosted: s.class != "ConsoleWindowClass"@,
        ours: belongs(s, roots, exe),
    }
}

/// Every entry by its view.
pub open spec fn entry_views(s: Seq<Entry>) -> Seq<EntryModel> {
    s.map_values(|e: Entry| e@)
}

/// What is said of every window.
pub open spec fn told_all(seen: Seq<SeenModel>, roots: Seq<u32>, exe: Seq<char>) -> Seq<EntryModel> {
    seen.map_values(|s: SeenModel| told(s, roots, exe))
}

/// Of those from position `i` on, the ones that are ours.
pub open spec fn ours_from(all: Seq<EntryModel>, i: int) -> Seq<EntryModel>
    decreases all.len() - i,
{
    if i < 0 || i >= all.len() {
        Seq::empty()
    } else if all[i].ours {
        seq![all[i]] + ours_from(all, i + 1)
    } else {
        ours_from(all, i + 1)
    }
}

fn copy_pids(v: &Vec<u32>) -> (r: Vec<u32>)
    ensures
        r@ == v@,
{
    let mut out: Vec<u32> = Vec::new();
    let mut i: usize = 0;
    while i < v.len()
        invariant
            i <= v@.len(),
            out@ == v@.take(i as int),
        decreases v@.len() - i,
    {
        out.push(v[i]);
        i = i + 1;
        proof {
            assert(out@ =~= v@.take(i as int));
        }
    }
    proof {
        assert(out@ =~= v@);
    }
    out
}

/// What is said of one window.
pub fn entry(s: &Seen, roots: &[u32], exe: &str) -> (r: Entry)
    ensures
        r@ == told(s@, roots@, exe@),
{
    let seen = Seen {
        hwnd: s.hwnd,
        pid: s.pid,
        class: copy_text(s.class.as_str()),
        title: copy_text(s.title.as_str()),
        shown_at: s.shown_at,
        chain: copy_pids(&s.chain),
    };
    let e = Entry {
        seen,
        user_visible: user_visible(s.class.as_str()),
        hosted: !same_text(s.class.as_str(), "ConsoleWindowClass"),
        ours: attributed(s, roots, exe),
    };
    proof {
        assert(e@ =~= told(s@, roots@, exe@));
    }
    e
}

/// The report.
pub struct Snapshot {
    pub seen: Vec<Entry>,
    pub ours: Vec<Entry>,
    pub watching: bool,
    pub at: u64,
}

/// Everything that was seen, and what of it is ours.
pub fn snapshot(state: &Watch, roots: &[u32], exe: &str, at: u64) -> (r: Snapshot)
    ensures
        entry_views(r.seen@) == told_all(seen_views(state.seen@), roots@, exe@),
        entry_views(r.ours@) == ours_from(told_all(seen_views(state.seen@), roots@, exe@), 0),
        r.watching == (state.hook != 0),
        r.at == at,
{
    let mut seen: Vec<Entry> = Vec::new();
    let mut ours: Vec<Entry> = Vec::new();
    let total: usize = state.seen.len();
    let ghost all = told_all(seen_views(state.seen@), roots@, exe@);
    let mut i: usize = 0;
    proof {
        assert(entry_views(ours@) + ours_from(all, 0) =~= ours_from(all, 0));
        assert(entry_views(seen@) =~= all.take(0));
    }
    while i < total
        invariant
            i <= total,
            total == state.seen@.len(),
            all == told_all(seen_views(state.seen@), roots@, exe@),
            entry_views(seen@) == all.take(i as int),
            ours_from(all, 0) == entry_views(ours@) + ours_from(all, i as int),
        decreases total - i,
    {
        let e = entry(&state.seen[i], roots, exe);
        proof {
            assert(e@ == all[i as int]);
        }
        if e.ours {
            let again = entry(&state.seen[i], roots, exe);
            let ghost before = ours@;
            ours.push(again);
            proof {
                assert(entry_views(before) + (seq![all[i as int]] + ours_from(all, i + 1)) =~= entry_views(ours@) + ours_from(all, i + 1));
            }
        }
        let ghost had = seen@;
        seen.push(e);
        proof {
            assert(entry_views(seen@) =~= entry_views(had).push(all[i as int]));
            assert(all.take(i + 1) =~= all.take(i as int).push(all[i as int]));
        }
        i = i + 1;
    }
    proof {
        assert(all.take(total as int) =~= all);
        assert(entry_views(ours@) + Seq::<EntryModel>::empty() =~= entry_views(ours@));
    }
    Snapshot { seen, ours, watching: installed(state), at }
}

/// Numbers of processes as JSON.
pub open spec fn pid_texts(pids: Seq<u32>) -> Seq<Seq<char>> {
    Seq::new(pids.len(), |i: int| decimal(pids[i] as nat))
}

/// What is said of a window that was seen, as JSON.
pub open spec fn entry_spelled(e: EntryModel) -> Seq<char> {
    "{\"chain\":"@ + list_of(pid_texts(e.seen.chain)) + ",\"className\":"@ + json_quoted(e.seen.class) + ",\"hosted\":"@ + truth_spelled(e.hosted)
        + ",\"hwnd\":"@ + signed_decimal(e.seen.hwnd as int) + ",\"ours\":"@ + truth_spelled(e.ours) + ",\"pid\":"@ + decimal(e.seen.pid as nat)
        + ",\"shownAt\":"@ + decimal(e.seen.shown_at as nat) + ",\"title\":"@ + json_quoted(e.seen.title) + ",\"userVisible\":"@ + truth_spelled(
        e.user_visible,
    ) + "}"@
}

fn entry_text(e: &Entry) -> (r: String)
    ensures
        r@ == entry_spelled(e@),
{
    let mut chain: Vec<String> = Vec::new();
    while chain.len() < e.seen.chain.len()
        invariant
            chain@.len() <= e.seen.chain@.len(),
            forall|i: int| 0 <= i < chain@.len() ==> (#[trigger] chain@[i])@ == decimal(e.seen.chain@[i] as nat),
        decreases e.seen.chain@.len() - chain@.len(),
    {
        let i: usize = chain.len();
        chain.push(decimal_text(e.seen.chain[i] as u64));
    }
    proof {
        assert(text_views(chain@) =~= pid_texts(e.seen.chain@));
    }
    let mut r = join3("{\"chain\":", write_list(&chain).as_str(), ",\"className\":");
    r.append(json_string(e.seen.class.as_str()).as_str());
    r.append(",\"hosted\":");
    r.append(truth_text(e.hosted));
    r.append(",\"hwnd\":");
    r.append(signed_text(e.seen.hwnd as i64).as_str());
    r.append(",\"ours\":");
    r.append(truth_text(e.ours));
    r.append(",\"pid\":");
    r.append(decimal_text(e.seen.pid as u64).as_str());
    r.append(",\"shownAt\":");
    r.append(decimal_text(e.seen.shown_at).as_str());
    r.append(",\"title\":");
    r.append(json_string(e.seen.title.as_str()).as_str());
    r.append(",\"userVisible\":");
    r.append(truth_text(e.user_visible));
    r.append("}");
    r
}

/// What is said of windows that were seen, as JSON.
pub open spec fn entry_texts(all: Seq<EntryModel>) -> Seq<Seq<char>> {
    Seq::new(all.len(), |i: int| entry_spelled(all[i]))
}

fn list_entries(list: &Vec<Entry>) -> (r: String)
    ensures
        r@ == list_of(entry_texts(entry_views(list@))),
{
    let mut texts: Vec<String> = Vec::new();
    while texts.len() < list.len()
        invariant
            texts@.len() <= list@.len(),
            forall|i: int| 0 <= i < texts@.len() ==> (#[trigger] texts@[i])@ == entry_spelled(list@[i]@),
        decreases list@.len() - texts@.len(),
    {
        let i: usize = texts.len();
        texts.push(entry_text(&list[i]));
    }
    proof {
        assert(text_views(texts@) =~= entry_texts(entry_views(list@)));
    }
    write_list(&texts)
}

/// A console window on the desktop, as JSON.
pub open spec fn window_spelled(w: Window) -> Seq<char> {
    "{\"className\":"@ + json_quoted(w.class@) + ",\"hwnd\":"@ + signed_decimal(w.hwnd as int) + ",\"pid\":"@ + decimal(w.pid as nat)
        + ",\"title\":"@ + json_quoted(w.title@) + ",\"userVisible\":"@ + truth_spelled(visible_class(w.class@)) + "}"@
}

fn window_text(w: &Window) -> (r: String)
    ensures
        r@ == window_spelled(*w),
{
    let mut r = join3("{\"className\":", json_string(w.class.as_str()).as_str(), ",\"hwnd\":");
    r.append(signed_text(w.hwnd as i64).as_str());
    r.append(",\"pid\":");
    r.append(decimal_text(w.pid as u64).as_str());
    r.append(",\"title\":");
    r.append(json_string(w.title.as_str()).as_str());
    r.append(",\"userVisible\":");
    r.append(truth_text(user_visible(w.class.as_str())));
    r.append("}");
    r
}

/// Some windows of the desktop, by their positions, as JSON.
pub open spec fn window_texts(windows: Seq<Window>, positions: Seq<int>) -> Seq<Seq<char>> {
    Seq::new(positions.len(), |i: int| window_spelled(windows[positions[i]]))
}

proof fn positions_exist(windows: Seq<Window>, i: int)
    requires
        0 <= i,
    ensures
        forall|k: int|
            0 <= k < console_positions(windows, i).len() ==> i <= #[trigger] console_positions(windows, i)[k] < windows.len(),
    decreases windows.len() - i,
{
    if i < windows.len() {
        positions_exist(windows, i + 1);
        let rest = console_positions(windows, i + 1);
        let all = console_positions(windows, i);
        assert forall|k: int| 0 <= k < all.len() implies i <= #[trigger] all[k] < windows.len() by {
            if all == rest {
                assert(i + 1 <= rest[k]);
            } else if k > 0 {
                assert(all[k] == rest[k - 1]);
            }
        }
    }
}

/// The console windows that are visible right now, as JSON.
pub fn current_texts(windows: &Vec<Window>) -> (r: Vec<String>)
    ensures
        text_views(r@) == window_texts(windows@, console_positions(windows@, 0)),
{
    let positions = current(windows);
    let ghost all = console_positions(windows@, 0);
    proof {
        positions_exist(windows@, 0);
        assert(positions@.len() == all.len());
        assert forall|k: int| 0 <= k < positions@.len() implies (#[trigger] positions@[k]) as int == all[k] by {
            assert(positions@.map_values(|k: usize| k as int)[k] == all[k]);
        }
    }
    let mut out: Vec<String> = Vec::new();
    while out.len() < positions.len()
        invariant
            positions@.len() == all.len(),
            forall|k: int| 0 <= k < positions@.len() ==> (#[trigger] positions@[k]) as int == all[k],
            forall|k: int| 0 <= k < all.len() ==> 0 <= #[trigger] all[k] < windows@.len(),
            out@.len() <= positions@.len(),
            forall|i: int| 0 <= i < out@.len() ==> (#[trigger] out@[i])@ == window_spelled(windows@[all[i]]),
        decreases positions@.len() - out@.len(),
    {
        let i: usize = out.len();
        let at: usize = positions[i];
        proof {
            assert(positions@[i as int] as int == all[i as int]);
        }
        out.push(window_text(&windows[at]));
    }
    proof {
        assert(text_views(out@) =~= window_texts(windows@, all));
    }
    out
}

/// How many of the windows that were seen are ones that people see.
pub open spec fn visible_entries(all: Seq<EntryModel>) -> nat
    decreases all.len(),
{
    if all.len() == 0 {
        0
    } else {
        visible_entries(all.drop_last()) + if all.last().user_visible { 1nat } else { 0 }
    }
}

/// How many of the windows that were seen are ones that people see.
pub fn count_visible(list: &Vec<Entry>) -> (r: usize)
    ensures
        r == visible_entries(entry_views(list@)),
{
    let ghost all = entry_views(list@);
    let mut count: usize = 0;
    let mut i: usize = 0;
    while i < list.len()
        invariant
            i <= list@.len(),
            all == entry_views(list@),
            count <= i,
            count == visible_entries(all.take(i as int)),
        decreases list@.len() - i,
    {
        proof {
            assert(all.take(i + 1).drop_last() =~= all.take(i as int));
            assert(all.take(i + 1).last() == list@[i as int]@);
        }
        if list[i].user_visible {
            count = count + 1;
        }
        i = i + 1;
    }
    proof {
        assert(all.take(i as int) =~= all);
    }
    count
}

/// The report as JSON.
pub open spec fn report_spelled(now: Seq<Seq<char>>, seen: Seq<EntryModel>, ours: Seq<EntryModel>, watching: bool, at: u64) -> Seq<char> {
    "{\"at\":"@ + decimal(at as nat) + ",\"current\":"@ + list_of(now) + ",\"ours\":"@ + list_of(entry_texts(ours)) + ",\"seen\":"@ + list_of(
        entry_texts(seen),
    ) + ",\"watching\":"@ + truth_spelled(watching) + "}"@
}

/// The report as JSON. `now`: the console windows on the desktop, as JSON.
pub fn report_text(now: &Vec<String>, taken: &Snapshot) -> (r: String)
    ensures
        r@ == report_spelled(text_views(now@), entry_views(taken.seen@), entry_views(taken.ours@), taken.watching, taken.at),
{
    let mut r = join3("{\"at\":", decimal_text(taken.at).as_str(), ",\"current\":");
    r.append(write_list(now).as_str());
    r.append(",\"ours\":");
    r.append(list_entries(&taken.ours).as_str());
    r.append(",\"seen\":");
    r.append(list_entries(&taken.seen).as_str());
    r.append(",\"watching\":");
    r.append(truth_text(taken.watching));
    r.append("}");
    r
}

/// A flash is not lost: a console window whose process descended from a root when it was shown is ours,
/// whatever has become of the process since.
pub proof fn a_flash_is_still_ours(s: SeenModel, roots: Seq<u32>, exe: Seq<char>, i: int)
    requires
        0 <= i < s.chain.len(),
        roots.contains(s.chain[i]),
    ensures
        told(s, roots, exe).ours,
{
}

/// A console window has one of three classes; of those people see two, and the classic one is not hosted.
pub proof fn console_windows_are_known_by_their_class(s: SeenModel, roots: Seq<u32>, exe: Seq<char>)
    ensures
        console_class("ConsoleWindowClass"@) && console_class("PseudoConsoleWindow"@) && console_class("CASCADIA_HOSTING_WINDOW_CLASS"@),
        forall|class: Seq<char>| #[trigger] console_class(class) ==> seq!["ConsoleWindowClass"@, "PseudoConsoleWindow"@, "CASCADIA_HOSTING_WINDOW_CLASS"@].contains(class),
        s.class == "ConsoleWindowClass"@ ==> told(s, roots, exe).user_visible && !told(s, roots, exe).hosted,
        s.class == "CASCADIA_HOSTING_WINDOW_CLASS"@ ==> told(s, roots, exe).user_visible && told(s, roots, exe).hosted,
        s.class == "PseudoConsoleWindow"@ ==> !told(s, roots, exe).user_visible && told(s, roots, exe).hosted,
        told(s, roots, exe).seen == s,
{
    reveal_strlit("ConsoleWindowClass");
    reveal_strlit("PseudoConsoleWindow");
    reveal_strlit("CASCADIA_HOSTING_WINDOW_CLASS");
    let list = seq!["ConsoleWindowClass"@, "PseudoConsoleWindow"@, "CASCADIA_HOSTING_WINDOW_CLASS"@];
    assert(list[0] == "ConsoleWindowClass"@ && list[1] == "PseudoConsoleWindow"@ && list[2] == "CASCADIA_HOSTING_WINDOW_CLASS"@);
    assert("ConsoleWindowClass"@.len() != "PseudoConsoleWindow"@.len());
    assert("ConsoleWindowClass"@.len() != "CASCADIA_HOSTING_WINDOW_CLASS"@.len());
    assert("PseudoConsoleWindow"@.len() != "CASCADIA_HOSTING_WINDOW_CLASS"@.len());
}

/// The parent of a process is the first that is listed for it.
pub proof fn the_first_parent_counts(parents: Seq<(u32, u32)>, pid: u32, i: int, k: int)
    requires
        0 <= i <= k < parents.len(),
        parents[k].0 == pid,
        forall|j: int| i <= j < k ==> (#[trigger] parents[j]).0 != pid,
    ensures
        parent_of(parents, pid, i) == Some(parents[k].1),
    decreases k - i,
{
    if i < k {
        assert(parents[i].0 != pid);
        the_first_parent_counts(parents, pid, i + 1, k);
    }
}

/// A process that is not listed has no parent.
pub proof fn an_unlisted_process_has_no_parent(parents: Seq<(u32, u32)>, pid: u32, i: int)
    requires
        0 <= i,
        forall|j: int| i <= j < parents.len() ==> (#[trigger] parents[j]).0 != pid,
    ensures
        parent_of(parents, pid, i) is None,
    decreases parents.len() - i,
{
    if i < parents.len() {
        an_unlisted_process_has_no_parent(parents, pid, i + 1);
    }
}

/// A chain of processes leads from a process to its parent, to the parent of that, and so on.
pub proof fn a_chain_leads_to_the_parents(parents: Seq<(u32, u32)>, chain: Seq<u32>, left: nat, k: int)
    requires
        chain.len() > 0,
        chain.len() - 1 <= k < climbed(parents, chain, left).len() - 1,
    ensures
        parent_of(parents, climbed(parents, chain, left)[k], 0) == Some(climbed(parents, chain, left)[k + 1]),
        climbed(parents, chain, left)[k + 1] != 0,
    decreases left,
{
    if left > 0 {
        match parent_of(parents, chain.last(), 0) {
            Some(parent) => {
                if parent != 0 && !chain.contains(parent) {
                    let next = chain.push(parent);
                    climbing_keeps(parents, next, (left - 1) as nat);
                    let all = climbed(parents, next, (left - 1) as nat);
                    assert(all == climbed(parents, chain, left));
                    if k == chain.len() - 1 {
                        assert(all[k] == next[k] && all[k + 1] == next[k + 1]);
                    } else {
                        a_chain_leads_to_the_parents(parents, next, (left - 1) as nat, k);
                    }
                }
            },
            None => {},
        }
    }
}

proof fn climbing_keeps(parents: Seq<(u32, u32)>, chain: Seq<u32>, left: nat)
    requires
        chain.len() > 0,
    ensures
        climbed(parents, chain, left).len() >= chain.len(),
        forall|i: int| 0 <= i < chain.len() ==> #[trigger] climbed(parents, chain, left)[i] == chain[i],
    decreases left,
{
    if left > 0 {
        match parent_of(parents, chain.last(), 0) {
            Some(parent) => {
                if parent != 0 && !chain.contains(parent) {
                    let next = chain.push(parent);
                    climbing_keeps(parents, next, (left - 1) as nat);
                    assert forall|i: int| 0 <= i < chain.len() implies #[trigger] climbed(parents, chain, left)[i] == chain[i] by {
                        assert(climbed(parents, next, (left - 1) as nat)[i] == next[i]);
                    }
                }
            },
            None => {},
        }
    }
}

/// A chain goes on as long as there is a parent that it has not met, and generations are left.
pub proof fn a_chain_goes_on_to_the_next_parent(parents: Seq<(u32, u32)>, chain: Seq<u32>, left: nat, parent: u32)
    requires
        chain.len() > 0,
        left > 0,
        parent_of(parents, chain.last(), 0) == Some(parent),
        parent != 0,
        !chain.contains(parent),
    ensures
        climbed(parents, chain, left).len() > chain.len(),
        climbed(parents, chain, left)[chain.len() as int] == parent,
        climbed(parents, chain, 0) == chain,
{
    climbing_keeps(parents, chain.push(parent), (left - 1) as nat);
    assert(climbed(parents, chain.push(parent), (left - 1) as nat)[chain.len() as int] == chain.push(parent)[chain.len() as int]);
}

/// A window is ours where a root is among its processes, or its title names our program; an unknown program
/// is named by nothing.
pub proof fn a_window_is_ours_by_process_or_title(s: SeenModel, roots: Seq<u32>, exe: Seq<char>)
    ensures
        (exists|i: int| 0 <= i < s.chain.len() && roots.contains(#[trigger] s.chain[i])) ==> told(s, roots, exe).ours,
        exe.len() > 0 && occurs(lower(s.title), exe) ==> told(s, roots, exe).ours,
        told(s, roots, Seq::empty()).ours ==> exists|i: int| 0 <= i < s.chain.len() && roots.contains(#[trigger] s.chain[i]),
        told(s, Seq::empty(), exe).ours ==> occurs(lower(s.title), exe),
{
}

/// Five hundred windows are kept, the newest last, and the oldest gives way.
pub proof fn the_newest_windows_are_kept(seen: Seq<SeenModel>, s: SeenModel)
    requires
        seen.len() <= 500,
    ensures
        with_seen(seen, s).len() == (if seen.len() < 500 { seen.len() + 1 } else { 500 }),
        with_seen(seen, s).last() == s,
        seen.len() < 500 ==> with_seen(seen, s).drop_last() == seen,
        seen.len() == 500 ==> with_seen(seen, s).drop_last() == seen.skip(1),
{
    if seen.len() < 500 {
        assert(seen.push(s).drop_last() =~= seen);
    } else {
        assert(seen.skip(1).push(s).drop_last() =~= seen.skip(1));
    }
}

/// The console windows on the desktop are those that are visible and have a console's class, in order.
pub proof fn the_visible_consoles_are_found(windows: Seq<Window>, i: int, k: int)
    requires
        0 <= i <= windows.len(),
    ensures
        console_positions(windows, i).contains(k) <==> i <= k < windows.len() && windows[k].visible && console_class(windows[k].class@),
        forall|x: int, y: int|
            0 <= x < y < console_positions(windows, i).len() ==> console_positions(windows, i)[x] < console_positions(windows, i)[y],
    decreases windows.len() - i,
{
    if i < windows.len() {
        the_visible_consoles_are_found(windows, i + 1, k);
        positions_exist(windows, i + 1);
        let rest = console_positions(windows, i + 1);
        let all = console_positions(windows, i);
        if windows[i].visible && console_class(windows[i].class@) {
            assert(all =~= seq![i] + rest);
            assert(all[0] == i);
            if rest.contains(k) {
                let at = choose|at: int| 0 <= at < rest.len() && rest[at] == k;
                assert(all[at + 1] == k);
            }
            if all.contains(k) {
                let at = choose|at: int| 0 <= at < all.len() && all[at] == k;
                if at > 0 {
                    assert(rest[at - 1] == k);
                }
            }
            assert forall|x: int, y: int| 0 <= x < y < all.len() implies all[x] < all[y] by {
                if x > 0 {
                    assert(all[x] == rest[x - 1] && all[y] == rest[y - 1]);
                } else {
                    assert(all[y] == rest[y - 1]);
                }
            }
        }
    }
}

/// What is ours of what was seen is every entry that is marked so, and no other.
pub proof fn what_is_ours_is_picked_out(all: Seq<EntryModel>, i: int, e: EntryModel)
    requires
        0 <= i <= all.len(),
    ensures
        ours_from(all, i).contains(e) <==> e.ours && exists|k: int| i <= k < all.len() && #[trigger] all[k] == e,
        (forall|k: int| i <= k < all.len() ==> (#[trigger] all[k]).ours) ==> ours_from(all, i) == all.skip(i),
    decreases all.len() - i,
{
    if i < all.len() {
        what_is_ours_is_picked_out(all, i + 1, e);
        let rest = ours_from(all, i + 1);
        let here = ours_from(all, i);
        if all[i].ours {
            assert(here =~= seq![all[i]] + rest);
            assert(here[0] == all[i]);
            if rest.contains(e) {
                let k = choose|k: int| 0 <= k < rest.len() && rest[k] == e;
                assert(here[k + 1] == e);
            }
            if here.contains(e) {
                let k = choose|k: int| 0 <= k < here.len() && here[k] == e;
                if k > 0 {
                    assert(rest[k - 1] == e);
                }
            }
        }
        if forall|k: int| i <= k < all.len() ==> (#[trigger] all[k]).ours {
            assert(all[i].ours);
            assert(seq![all[i]] + all.skip(i + 1) =~= all.skip(i));
        }
    } else {
        assert(all.skip(i) =~= Seq::empty());
    }
}

/// The windows that people see are counted one by one.
pub proof fn what_people_see_is_counted(all: Seq<EntryModel>, e: EntryModel)
    ensures
        visible_entries(Seq::empty()) == 0,
        e.user_visible ==> visible_entries(all.push(e)) == visible_entries(all) + 1,
        !e.user_visible ==> visible_entries(all.push(e)) == visible_entries(all),
{
    assert(all.push(e).drop_last() =~= all);
}

/// What is said of a window that was seen is an object: each member stands under its name.
pub proof fn an_entry_has_its_members(e: EntryModel)
    ensures
        entry_spelled(e) == "{"@ + joined_by(
            seq![
                "\"chain\":"@ + list_of(pid_texts(e.seen.chain)),
                "\"className\":"@ + json_quoted(e.seen.class),
                "\"hosted\":"@ + truth_spelled(e.hosted),
                "\"hwnd\":"@ + signed_decimal(e.seen.hwnd as int),
                "\"ours\":"@ + truth_spelled(e.ours),
                "\"pid\":"@ + decimal(e.seen.pid as nat),
                "\"shownAt\":"@ + decimal(e.seen.shown_at as nat),
                "\"title\":"@ + json_quoted(e.seen.title),
                "\"userVisible\":"@ + truth_spelled(e.user_visible),
            ],
            ',',
        ) + "}"@,
{
    let p0 = seq!["\"chain\":"@ + list_of(pid_texts(e.seen.chain))];
    let h0 = "{\"chain\":"@ + list_of(pid_texts(e.seen.chain));
    assert(h0 =~= "{"@ + joined_by(p0, ',')) by {
        reveal_strlit("{");
        reveal_strlit("{\"chain\":");
        reveal_strlit("\"chain\":");
    }
    let p1 = p0.push("\"className\":"@ + json_quoted(e.seen.class));
    let h1 = h0 + ",\"className\":"@ + json_quoted(e.seen.class);
    assert(",\"className\":"@ =~= seq![','] + "\"className\":"@) by {
        reveal_strlit(",\"className\":");
        reveal_strlit("\"className\":");
    }
    one_more_member_follows(h0, p0, ",\"className\":"@, "\"className\":"@, json_quoted(e.seen.class));
    let p2 = p1.push("\"hosted\":"@ + truth_spelled(e.hosted));
    let h2 = h1 + ",\"hosted\":"@ + truth_spelled(e.hosted);
    assert(",\"hosted\":"@ =~= seq![','] + "\"hosted\":"@) by {
        reveal_strlit(",\"hosted\":");
        reveal_strlit("\"hosted\":");
    }
    one_more_member_follows(h1, p1, ",\"hosted\":"@, "\"hosted\":"@, truth_spelled(e.hosted));
    let p3 = p2.push("\"hwnd\":"@ + signed_decimal(e.seen.hwnd as int));
    let h3 = h2 + ",\"hwnd\":"@ + signed_decimal(e.seen.hwnd as int);
    assert(",\"hwnd\":"@ =~= seq![','] + "\"hwnd\":"@) by {
        reveal_strlit(",\"hwnd\":");
        reveal_strlit("\"hwnd\":");
    }
    one_more_member_follows(h2, p2, ",\"hwnd\":"@, "\"hwnd\":"@, signed_decimal(e.seen.hwnd as int));
    let p4 = p3.push("\"ours\":"@ + truth_spelled(e.ours));
    let h4 = h3 + ",\"ours\":"@ + truth_spelled(e.ours);
    assert(",\"ours\":"@ =~= seq![','] + "\"ours\":"@) by {
        reveal_strlit(",\"ours\":");
        reveal_strlit("\"ours\":");
    }
    one_more_member_follows(h3, p3, ",\"ours\":"@, "\"ours\":"@, truth_spelled(e.ours));
    let p5 = p4.push("\"pid\":"@ + decimal(e.seen.pid as nat));
    let h5 = h4 + ",\"pid\":"@ + decimal(e.seen.pid as nat);
    assert(",\"pid\":"@ =~= seq![','] + "\"pid\":"@) by {
        reveal_strlit(",\"pid\":");
        reveal_strlit("\"pid\":");
    }
    one_more_member_follows(h4, p4, ",\"pid\":"@, "\"pid\":"@, decimal(e.seen.pid as nat));
    let p6 = p5.push("\"shownAt\":"@ + decimal(e.seen.shown_at as nat));
    let h6 = h5 + ",\"shownAt\":"@ + decimal(e.seen.shown_at as nat);
    assert(",\"shownAt\":"@ =~= seq![','] + "\"shownAt\":"@) by {
        reveal_strlit(",\"shownAt\":");
        reveal_strlit("\"shownAt\":");
    }
    one_more_member_follows(h5, p5, ",\"shownAt\":"@, "\"shownAt\":"@, decimal(e.seen.shown_at as nat));
    let p7 = p6.push("\"title\":"@ + json_quoted(e.seen.title));
    let h7 = h6 + ",\"title\":"@ + json_quoted(e.seen.title);
    assert(",\"title\":"@ =~= seq![','] + "\"title\":"@) by {
        reveal_strlit(",\"title\":");
        reveal_strlit("\"title\":");
    }
    one_more_member_follows(h6, p6, ",\"title\":"@, "\"title\":"@, json_quoted(e.seen.title));
    let p8 = p7.push("\"userVisible\":"@ + truth_spelled(e.user_visible));
    let h8 = h7 + ",\"userVisible\":"@ + truth_spelled(e.user_visible);
    assert(",\"userVisible\":"@ =~= seq![','] + "\"userVisible\":"@) by {
        reveal_strlit(",\"userVisible\":");
        reveal_strlit("\"userVisible\":");
    }
    one_more_member_follows(h7, p7, ",\"userVisible\":"@, "\"userVisible\":"@, truth_spelled(e.user_visible));
    assert(seq!["\"chain\":"@ + list_of(pid_texts(e.seen.chain)), "\"className\":"@ + json_quoted(e.seen.class), "\"hosted\":"@ + truth_spelled(e.hosted), "\"hwnd\":"@ + signed_decimal(e.seen.hwnd as int), "\"ours\":"@ + truth_spelled(e.ours), "\"pid\":"@ + decimal(e.seen.pid as nat), "\"shownAt\":"@ + decimal(e.seen.shown_at as nat), "\"title\":"@ + json_quoted(e.seen.title), "\"userVisible\":"@ + truth_spelled(e.user_visible)] =~= p8);
    assert(entry_spelled(e) == h8 + "}"@);
}

/// A window of the desktop is an object: each member stands under its name.
pub proof fn a_window_has_its_members(w: Window)
    ensures
        window_spelled(w) == "{"@ + joined_by(
            seq![
                "\"className\":"@ + json_quoted(w.class@),
                "\"hwnd\":"@ + signed_decimal(w.hwnd as int),
                "\"pid\":"@ + decimal(w.pid as nat),
                "\"title\":"@ + json_quoted(w.title@),
                "\"userVisible\":"@ + truth_spelled(visible_class(w.class@)),
            ],
            ',',
        ) + "}"@,
{
    let p0 = seq!["\"className\":"@ + json_quoted(w.class@)];
    let h0 = "{\"className\":"@ + json_quoted(w.class@);
    assert(h0 =~= "{"@ + joined_by(p0, ',')) by {
        reveal_strlit("{");
        reveal_strlit("{\"className\":");
        reveal_strlit("\"className\":");
    }
    let p1 = p0.push("\"hwnd\":"@ + signed_decimal(w.hwnd as int));
    let h1 = h0 + ",\"hwnd\":"@ + signed_decimal(w.hwnd as int);
    assert(",\"hwnd\":"@ =~= seq![','] + "\"hwnd\":"@) by {
        reveal_strlit(",\"hwnd\":");
        reveal_strlit("\"hwnd\":");
    }
    one_more_member_follows(h0, p0, ",\"hwnd\":"@, "\"hwnd\":"@, signed_decimal(w.hwnd as int));
    let p2 = p1.push("\"pid\":"@ + decimal(w.pid as nat));
    let h2 = h1 + ",\"pid\":"@ + decimal(w.pid as nat);
    assert(",\"pid\":"@ =~= seq![','] + "\"pid\":"@) by {
        reveal_strlit(",\"pid\":");
        reveal_strlit("\"pid\":");
    }
    one_more_member_follows(h1, p1, ",\"pid\":"@, "\"pid\":"@, decimal(w.pid as nat));
    let p3 = p2.push("\"title\":"@ + json_quoted(w.title@));
    let h3 = h2 + ",\"title\":"@ + json_quoted(w.title@);
    assert(",\"title\":"@ =~= seq![','] + "\"title\":"@) by {
        reveal_strlit(",\"title\":");
        reveal_strlit("\"title\":");
    }
    one_more_member_follows(h2, p2, ",\"title\":"@, "\"title\":"@, json_quoted(w.title@));
    let p4 = p3.push("\"userVisible\":"@ + truth_spelled(visible_class(w.class@)));
    let h4 = h3 + ",\"userVisible\":"@ + truth_spelled(visible_class(w.class@));
    assert(",\"userVisible\":"@ =~= seq![','] + "\"userVisible\":"@) by {
        reveal_strlit(",\"userVisible\":");
        reveal_strlit("\"userVisible\":");
    }
    one_more_member_follows(h3, p3, ",\"userVisible\":"@, "\"userVisible\":"@, truth_spelled(visible_class(w.class@)));
    assert(seq!["\"className\":"@ + json_quoted(w.class@), "\"hwnd\":"@ + signed_decimal(w.hwnd as int), "\"pid\":"@ + decimal(w.pid as nat), "\"title\":"@ + json_quoted(w.title@), "\"userVisible\":"@ + truth_spelled(visible_class(w.class@))] =~= p4);
    assert(window_spelled(w) == h4 + "}"@);
}

/// The report is an object: when it was made, what is there, what is ours, what was seen, and whether windows are watched.
pub proof fn a_report_has_its_members(now: Seq<Seq<char>>, seen: Seq<EntryModel>, ours: Seq<EntryModel>, watching: bool, at: u64)
    ensures
        report_spelled(now, seen, ours, watching, at) == "{"@ + joined_by(
            seq![
                "\"at\":"@ + decimal(at as nat),
                "\"current\":"@ + list_of(now),
                "\"ours\":"@ + list_of(entry_texts(ours)),
                "\"seen\":"@ + list_of(entry_texts(seen)),
                "\"watching\":"@ + truth_spelled(watching),
            ],
            ',',
        ) + "}"@,
{
    let p0 = seq!["\"at\":"@ + decimal(at as nat)];
    let h0 = "{\"at\":"@ + decimal(at as nat);
    assert(h0 =~= "{"@ + joined_by(p0, ',')) by {
        reveal_strlit("{");
        reveal_strlit("{\"at\":");
        reveal_strlit("\"at\":");
    }
    let p1 = p0.push("\"current\":"@ + list_of(now));
    let h1 = h0 + ",\"current\":"@ + list_of(now);
    assert(",\"current\":"@ =~= seq![','] + "\"current\":"@) by {
        reveal_strlit(",\"current\":");
        reveal_strlit("\"current\":");
    }
    one_more_member_follows(h0, p0, ",\"current\":"@, "\"current\":"@, list_of(now));
    let p2 = p1.push("\"ours\":"@ + list_of(entry_texts(ours)));
    let h2 = h1 + ",\"ours\":"@ + list_of(entry_texts(ours));
    assert(",\"ours\":"@ =~= seq![','] + "\"ours\":"@) by {
        reveal_strlit(",\"ours\":");
        reveal_strlit("\"ours\":");
    }
    one_more_member_follows(h1, p1, ",\"ours\":"@, "\"ours\":"@, list_of(entry_texts(ours)));
    let p3 = p2.push("\"seen\":"@ + list_of(entry_texts(seen)));
    let h3 = h2 + ",\"seen\":"@ + list_of(entry_texts(seen));
    assert(",\"seen\":"@ =~= seq![','] + "\"seen\":"@) by {
        reveal_strlit(",\"seen\":");
        reveal_strlit("\"seen\":");
    }
    one_more_member_follows(h2, p2, ",\"seen\":"@, "\"seen\":"@, list_of(entry_texts(seen)));
    let p4 = p3.push("\"watching\":"@ + truth_spelled(watching));
    let h4 = h3 + ",\"watching\":"@ + truth_spelled(watching);
    assert(",\"watching\":"@ =~= seq![','] + "\"watching\":"@) by {
        reveal_strlit(",\"watching\":");
        reveal_strlit("\"watching\":");
    }
    one_more_member_follows(h3, p3, ",\"watching\":"@, "\"watching\":"@, truth_spelled(watching));
    assert(seq!["\"at\":"@ + decimal(at as nat), "\"current\":"@ + list_of(now), "\"ours\":"@ + list_of(entry_texts(ours)), "\"seen\":"@ + list_of(entry_texts(seen)), "\"watching\":"@ + truth_spelled(watching)] =~= p4);
    assert(report_spelled(now, seen, ours, watching, at) == h4 + "}"@);
}

/// How much is kept, and how far a process is followed.
pub proof fn the_limits_of_the_watch()
    ensures
        KEPT == 500,
        GENERATIONS == 32,
{
}

} // verus!
