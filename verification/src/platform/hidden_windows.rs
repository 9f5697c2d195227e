//! Hidden top-level windows of browsers that the engine made by itself.
//!
//! Such a window must never be seen or take the keyboard: it is cloaked, the activation of it and of
//! every window that it owns is refused, and a window that it owns is cloaked before it is first shown.
//! The one exception is a hidden root whose one dialog is waited for ([`allow_dialogs`]).
//!
//! [`Registry`] is the state. What is asked of the window system (which window owns which, which exist)
//! comes as [`Desktop`].
use crate::counter::{bump, next_number};
use crate::rect::{sided, sides, Edges};
use crate::text::{copy_text, hex_number, hex_short, hex_short_reads_back, hex_short_text, join2};
use std::collections::{HashMap, HashSet, VecDeque};
use vstd::prelude::*;

verus! {

broadcast use vstd::std_specs::hash::group_hash_axioms;

/// Owner chains longer than this are not followed.
pub const MAX_OWNER_DEPTH: usize = 8;

/// Recent events that are kept.
pub const RECENT: usize = 48;

/// The style of a child window.
pub const WS_CHILD: u32 = 0x4000_0000;

#[derive(Debug, Clone, Copy, PartialEq, Eq, Structural)]
pub struct Stats {
    pub activations_blocked: u64,
    pub cloaked_at_create: u64,
    pub cloak_at_create_failed: u64,
    pub cloaked_on_show: u64,
    pub foreground_restored: u64,
    /// Windows that a root with an admitted dialog created after it.
    pub extra_dialogs_cloaked: u64,
}

/// What happened to a window.
#[derive(Debug, Clone, Copy, PartialEq, Eq, Structural)]
pub enum Kind {
    DialogsAllowed,
    DialogsRefused,
    OwnedForgotten,
    ActivateBlocked,
    DialogCreated,
    ExtraDialogCloaked,
    OwnedCreated,
    StaOwnedCreated,
    TopLevelCreated,
    DialogShown,
    CloakedOnShow,
    StaOwnedShown,
    OwnedShown,
    ForegroundRestored,
    Hidden,
    Shown,
}

impl Kind {
    pub open spec fn label(self) -> Seq<char> {
        match self {
            Kind::DialogsAllowed => "dialogs-allowed"@,
            Kind::DialogsRefused => "dialogs-refused"@,
            Kind::OwnedForgotten => "owned-forgotten"@,
            Kind::ActivateBlocked => "activate-blocked"@,
            Kind::DialogCreated => "dialog-created"@,
            Kind::ExtraDialogCloaked => "extra-dialog-cloaked"@,
            Kind::OwnedCreated => "owned-created"@,
            Kind::StaOwnedCreated => "sta-owned-created"@,
            Kind::TopLevelCreated => "top-level-created"@,
            Kind::DialogShown => "dialog-shown"@,
            Kind::CloakedOnShow => "cloaked-on-show"@,
            Kind::StaOwnedShown => "sta-owned-shown"@,
            Kind::OwnedShown => "owned-shown"@,
            Kind::ForegroundRestored => "foreground-restored"@,
            Kind::Hidden => "hidden"@,
            Kind::Shown => "shown"@,
        }
    }

    /// The name of the event.
    pub fn name(self) -> (r: &'static str)
        ensures
            r@ == self.label(),
    {
        match self {
            Kind::DialogsAllowed => "dialogs-allowed",
            Kind::DialogsRefused => "dialogs-refused",
            Kind::OwnedForgotten => "owned-forgotten",
            Kind::ActivateBlocked => "activate-blocked",
            Kind::DialogCreated => "dialog-created",
            Kind::ExtraDialogCloaked => "extra-dialog-cloaked",
            Kind::OwnedCreated => "owned-created",
            Kind::StaOwnedCreated => "sta-owned-created",
            Kind::TopLevelCreated => "top-level-created",
            Kind::DialogShown => "dialog-shown",
            Kind::CloakedOnShow => "cloaked-on-show",
            Kind::StaOwnedShown => "sta-owned-shown",
            Kind::OwnedShown => "owned-shown",
            Kind::ForegroundRestored => "foreground-restored",
            Kind::Hidden => "hidden",
            Kind::Shown => "shown",
        }
    }
}

/// What an event says besides its window.
#[derive(Debug)]
pub enum Extra {
    Nothing,
    /// What the window was created with, the styles in hexadecimal. (It is not laid out yet.)
    Created { owner: isize, style: String, ex_style: String },
    /// Whether a root could be cloaked.
    Cloaked { ok: bool },
}

/// What an event says besides its window, as mathematics.
pub enum Detail {
    Nothing,
    Created { owner: isize, style: Seq<char>, ex_style: Seq<char> },
    Cloaked { ok: bool },
}

impl View for Extra {
    type V = Detail;

    open spec fn view(&self) -> Detail {
        match self {
            Extra::Nothing => Detail::Nothing,
            Extra::Created { owner, style, ex_style } => Detail::Created { owner: *owner, style: style@, ex_style: ex_style@ },
            Extra::Cloaked { ok } => Detail::Cloaked { ok: *ok },
        }
    }
}

/// An event: when, what, and the window as it was.
#[derive(Debug)]
pub struct Logged {
    pub time_ms: u64,
    pub kind: Kind,
    pub window: WindowDescription,
    pub extra: Extra,
}

/// An event as mathematics.
pub struct Entry {
    pub time_ms: u64,
    pub kind: Kind,
    pub window: Look,
    pub extra: Detail,
}

impl View for Logged {
    type V = Entry;

    open spec fn view(&self) -> Entry {
        Entry { time_ms: self.time_ms, kind: self.kind, window: self.window@, extra: self.extra@ }
    }
}

/// Events as mathematics.
pub open spec fn entries(log: Seq<Logged>) -> Seq<Entry> {
    Seq::new(log.len(), |i: int| log[i]@)
}

/// A hidden root whose one dialog is left alone, and that dialog (0: none yet).
#[derive(Debug, Clone, Copy, PartialEq, Eq, Structural)]
pub struct DialogRoot {
    pub root: isize,
    pub dialog: isize,
}

/// What the window system says.
pub struct Desktop {
    /// The owner of each window that has one.
    pub owners: HashMap<isize, isize>,
    /// The windows that exist.
    pub windows: HashSet<isize>,
    /// What windows look like.
    pub looks: HashMap<isize, WindowDescription>,
}

/// The hidden windows.
pub struct Registry {
    pub hidden: Vec<isize>,
    /// Windows that a hidden root owns.
    pub owned: Vec<isize>,
    pub dialogs: Vec<DialogRoot>,
    /// The main window (0: none yet).
    pub main: isize,
    /// The hooks are installed.
    pub installed: bool,
    pub stats: Stats,
    /// Recent events, oldest first.
    pub log: VecDeque<Logged>,
}

/// The hidden windows as mathematics.
#[verifier::ext_equal]
pub struct Model {
    pub hidden: Seq<isize>,
    pub owned: Seq<isize>,
    pub dialogs: Seq<DialogRoot>,
    pub main: isize,
    pub installed: bool,
    pub stats: Stats,
    pub log: Seq<Entry>,
}

impl View for Registry {
    type V = Model;

    open spec fn view(&self) -> Model {
        Model {
            hidden: self.hidden@,
            owned: self.owned@,
            dialogs: self.dialogs@,
            main: self.main,
            installed: self.installed,
            stats: self.stats,
            log: entries(self.log@),
        }
    }
}

// ------------------------------------------------------------------------------ lists

/// A list with a window in it, once.
pub open spec fn with(s: Seq<isize>, x: isize) -> Seq<isize> {
    if s.contains(x) { s } else { s.push(x) }
}

/// A list without a window.
pub open spec fn without(s: Seq<isize>, x: isize) -> Seq<isize>
    decreases s.len(),
{
    if s.len() == 0 {
        Seq::empty()
    } else if s.last() == x {
        without(s.drop_last(), x)
    } else {
        without(s.drop_last(), x).push(s.last())
    }
}

fn lists(v: &Vec<isize>, x: isize) -> (r: bool)
    ensures
        r == v@.contains(x),
{
    let mut i: usize = 0;
    while i < v.len()
        invariant
            i <= v@.len(),
            forall|k: int| 0 <= k < i ==> v@[k] != x,
        decreases v@.len() - i,
    {
        if v[i] == x {
            return true;
        }
        i = i + 1;
    }
    false
}

fn put(v: &mut Vec<isize>, x: isize)
    ensures
        final(v)@ == with(old(v)@, x),
        old(v)@.no_duplicates() ==> final(v)@.no_duplicates(),
{
    if !lists(v, x) {
        v.push(x);
    }
}

fn take_out(v: &mut Vec<isize>, x: isize)
    ensures
        final(v)@ == without(old(v)@, x),
        old(v)@.no_duplicates() ==> final(v)@.no_duplicates(),
{
    let mut kept: Vec<isize> = Vec::new();
    let mut i: usize = 0;
    let ghost all = v@;
    while i < v.len()
        invariant
            i <= v@.len(),
            v@ == all,
            kept@ == without(all.take(i as int), x),
        decreases v@.len() - i,
    {
        proof {
            assert(all.take(i + 1).drop_last() =~= all.take(i as int));
            assert(all.take(i + 1).last() == all[i as int]);
        }
        if v[i] != x {
            kept.push(v[i]);
        }
        i = i + 1;
    }
    proof {
        assert(all.take(i as int) =~= all);
        if all.no_duplicates() {
            without_repeats_nothing(all, x);
        }
    }
    *v = kept;
}

/// Taking a window out of a list leaves the others.
pub proof fn without_leaves_the_others(s: Seq<isize>, x: isize, y: isize)
    ensures
        without(s, x).contains(y) <==> (s.contains(y) && y != x),
    decreases s.len(),
{
    if s.len() > 0 {
        let d = s.drop_last();
        without_leaves_the_others(d, x, y);
        let w = without(s, x);
        if s.contains(y) && y != x {
            let i = choose|i: int| 0 <= i < s.len() && s[i] == y;
            if i < d.len() {
                assert(d[i] == y);
                let j = choose|j: int| 0 <= j < without(d, x).len() && without(d, x)[j] == y;
                assert(w[j] == y);
            } else {
                assert(w[w.len() - 1] == y);
            }
        }
        if w.contains(y) {
            let j = choose|j: int| 0 <= j < w.len() && w[j] == y;
            if s.last() != x && j == w.len() - 1 {
                assert(s[s.len() - 1] == y);
            } else {
                assert(without(d, x)[j] == y);
                assert(d.contains(y));
                let i = choose|i: int| 0 <= i < d.len() && d[i] == y;
                assert(s[i] == y);
            }
        }
    }
}

/// Taking a window out of a list makes nothing occur twice.
proof fn without_repeats_nothing(s: Seq<isize>, x: isize)
    requires
        s.no_duplicates(),
    ensures
        without(s, x).no_duplicates(),
    decreases s.len(),
{
    if s.len() > 0 {
        let d = s.drop_last();
        without_repeats_nothing(d, x);
        without_leaves_the_others(d, x, s.last());
        if d.contains(s.last()) {
            let i = choose|i: int| 0 <= i < d.len() && d[i] == s.last();
            assert(s[i] == s[s.len() - 1]);
        }
    }
}

// ------------------------------------------------------------------------------ owners

/// The owner of a window (0: none).
pub open spec fn owner(d: Desktop, hwnd: isize) -> isize {
    if d.owners@.contains_key(hwnd) { d.owners@[hwnd] } else { 0 }
}

/// The window or one of its owners, `depth` windows at most, is in the list.
pub open spec fn reaches(d: Desktop, list: Seq<isize>, hwnd: isize, depth: int) -> bool
    decreases depth,
{
    depth > 0 && (list.contains(hwnd) || (owner(d, hwnd) != 0 && reaches(d, list, owner(d, hwnd), depth - 1)))
}

/// A window exists.
pub open spec fn exists_in(d: Desktop, hwnd: isize) -> bool {
    hwnd != 0 && d.windows@.contains(hwnd)
}

/// The owner of a window (0: none).
pub fn owner_of(d: &Desktop, hwnd: isize) -> (r: isize)
    ensures
        r == owner(*d, hwnd),
{
    match d.owners.get(&hwnd) {
        Some(o) => *o,
        None => 0,
    }
}

/// A window exists.
pub fn is_window(d: &Desktop, hwnd: isize) -> (r: bool)
    ensures
        r == exists_in(*d, hwnd),
{
    hwnd != 0 && d.windows.contains(&hwnd)
}

fn chain_reaches(d: &Desktop, list: &Vec<isize>, hwnd: isize) -> (r: bool)
    ensures
        r == reaches(*d, list@, hwnd, MAX_OWNER_DEPTH as int),
{
    let mut current: isize = hwnd;
    let mut left: usize = MAX_OWNER_DEPTH;
    while left > 0
        invariant
            left <= MAX_OWNER_DEPTH,
            reaches(*d, list@, hwnd, MAX_OWNER_DEPTH as int) == reaches(*d, list@, current, left as int),
        decreases left,
    {
        if lists(list, current) {
            return true;
        }
        let next: isize = owner_of(d, current);
        if next == 0 {
            return false;
        }
        current = next;
        left = left - 1;
    }
    false
}

/// The root is in the owner chain of the window, or is the window.
pub fn owner_chain_contains(d: &Desktop, hwnd: isize, root: isize) -> (r: bool)
    ensures
        r == reaches(*d, seq![root], hwnd, MAX_OWNER_DEPTH as int),
{
    let list = vec![root];
    proof {
        assert(list@ =~= seq![root]);
    }
    chain_reaches(d, &list, hwnd)
}

// ------------------------------------------------------------------------------ the model

/// The dialogs that were admitted, from position `i` on.
pub open spec fn admitted(dialogs: Seq<DialogRoot>, i: int) -> Seq<isize>
    decreases dialogs.len() - i,
{
    if i < 0 || i >= dialogs.len() {
        Seq::empty()
    } else if dialogs[i].dialog != 0 {
        seq![dialogs[i].dialog] + admitted(dialogs, i + 1)
    } else {
        admitted(dialogs, i + 1)
    }
}

/// Where a root stands in the list of those whose dialog is left alone, from position `i` on.
pub open spec fn slot_of(dialogs: Seq<DialogRoot>, root: isize, i: int) -> Option<int>
    decreases dialogs.len() - i,
{
    if i < 0 || i >= dialogs.len() {
        None
    } else if dialogs[i].root == root {
        Some(i)
    } else {
        slot_of(dialogs, root, i + 1)
    }
}

/// The events with another one, the oldest dropped where there are too many.
pub open spec fn logged(log: Seq<Entry>, e: Entry) -> Seq<Entry> {
    let all = log.push(e);
    if all.len() > RECENT { all.skip(all.len() - RECENT) } else { all }
}

/// What a window looks like.
pub open spec fn look(d: Desktop, hwnd: isize) -> Look {
    if d.looks@.contains_key(hwnd) {
        Look { hwnd, ..d.looks@[hwnd]@ }
    } else {
        Look {
            hwnd,
            class: Seq::empty(),
            title: Seq::empty(),
            style: style(0),
            ex_style: style(0),
            owner: owner(d, hwnd),
            visible: false,
            cloaked: false,
            rect: seq![0i32, 0i32, 0i32, 0i32],
        }
    }
}

impl Model {
    /// Nothing is listed twice, no root has two dialogs, and only so many events are kept.
    pub open spec fn valid(self) -> bool {
        &&& self.hidden.no_duplicates()
        &&& self.owned.no_duplicates()
        &&& forall|i: int, j: int| 0 <= i < j < self.dialogs.len() ==> self.dialogs[i].root != self.dialogs[j].root
        &&& self.log.len() <= RECENT
    }

    /// An event is kept, with what its window looks like.
    pub open spec fn record(self, d: Desktop, time_ms: u64, kind: Kind, hwnd: isize, extra: Detail) -> Model {
        Model { log: logged(self.log, (Entry { time_ms, kind, window: look(d, hwnd), extra })), ..self }
    }

    /// An event is kept that says nothing but its window.
    pub open spec fn noted(self, d: Desktop, time_ms: u64, kind: Kind, hwnd: isize) -> Model {
        self.record(d, time_ms, kind, hwnd, Detail::Nothing)
    }

    /// The window is hidden: it is a hidden root, or one owns it.
    pub open spec fn hides(self, d: Desktop, hwnd: isize) -> bool {
        hwnd != 0 && reaches(d, self.hidden, hwnd, MAX_OWNER_DEPTH as int)
    }

    /// A window was looked up: one that is not hidden is not taken for an owned one any longer.
    pub open spec fn looked(self, d: Desktop, hwnd: isize, time_ms: u64) -> Model {
        if hwnd != 0 && !self.hides(d, hwnd) && self.owned.contains(hwnd) {
            (Model { owned: without(self.owned, hwnd), ..self }).noted(d, time_ms, Kind::OwnedForgotten, hwnd)
        } else {
            self
        }
    }

    /// The window is an admitted dialog, or one owns it.
    pub open spec fn allows(self, d: Desktop, hwnd: isize) -> bool {
        hwnd != 0 && reaches(d, admitted(self.dialogs, 0), hwnd, MAX_OWNER_DEPTH as int)
    }

    /// The root's one dialog is left alone.
    pub open spec fn allows_dialogs(self, root: isize) -> bool {
        slot_of(self.dialogs, root, 0) is Some
    }

    /// A window of this root may be its dialog: there is none yet, it is the one, or the one is gone.
    pub open spec fn admits(self, d: Desktop, root: isize, hwnd: isize) -> bool {
        match slot_of(self.dialogs, root, 0) {
            Some(i) => self.dialogs[i].dialog == hwnd || self.dialogs[i].dialog == 0 || !exists_in(d, self.dialogs[i].dialog),
            None => false,
        }
    }

    /// The window is the dialog of this root now.
    pub open spec fn with_dialog(self, root: isize, hwnd: isize) -> Model {
        match slot_of(self.dialogs, root, 0) {
            Some(i) => Model { dialogs: self.dialogs.update(i, (DialogRoot { root, dialog: hwnd })), ..self },
            None => self,
        }
    }

    /// An activation was asked for: what it leaves, and whether it is refused.
    pub open spec fn activating(self, d: Desktop, hwnd: isize, time_ms: u64) -> (Model, bool) {
        let m = self.looked(d, hwnd, time_ms);
        if self.hides(d, hwnd) && !self.allows(d, hwnd) {
            (
                (Model { stats: Stats { activations_blocked: next_number(m.stats.activations_blocked), ..m.stats }, ..m }).noted(
                    d,
                    time_ms,
                    Kind::ActivateBlocked,
                    hwnd,
                ),
                true,
            )
        } else {
            (m, false)
        }
    }

    /// A window is created: what that leaves, and what it is. One that is to be cloaked is logged once
    /// it was ([`Model::cloaked_at_create`]).
    pub open spec fn creating(self, d: Desktop, w: Creation, time_ms: u64) -> (Model, Create) {
        if w.style & WS_CHILD != 0 {
            (self, Create::Child)
        } else if w.owner == 0 {
            (self.record(d, time_ms, Kind::TopLevelCreated, w.hwnd, w.detail()), Create::TopLevel)
        } else {
            let m = self.looked(d, w.owner, time_ms);
            if self.hides(d, w.owner) {
                if m.admits(d, w.owner, w.hwnd) {
                    (
                        m.with_dialog(w.owner, w.hwnd).record(d, time_ms, Kind::DialogCreated, w.hwnd, w.detail()),
                        Create::Dialog,
                    )
                } else {
                    (Model { owned: with(m.owned, w.hwnd), ..m }, Create::Owned { extra: m.allows_dialogs(w.owner) })
                }
            } else if w.owner == self.main {
                (m.record(d, time_ms, Kind::StaOwnedCreated, w.hwnd, w.detail()), Create::StaOwned)
            } else {
                (m.record(d, time_ms, Kind::TopLevelCreated, w.hwnd, w.detail()), Create::TopLevel)
            }
        }
    }

    /// A window of a hidden root was cloaked while it was created, or could not be.
    pub open spec fn cloaked_at_create(self, d: Desktop, w: Creation, extra: bool, ok: bool, time_ms: u64) -> Model {
        let counted = if ok {
            Stats { cloaked_at_create: next_number(self.stats.cloaked_at_create), ..self.stats }
        } else {
            Stats { cloak_at_create_failed: next_number(self.stats.cloak_at_create_failed), ..self.stats }
        };
        let stats = if extra {
            Stats { extra_dialogs_cloaked: next_number(counted.extra_dialogs_cloaked), ..counted }
        } else {
            counted
        };
        (Model { stats, ..self }).record(
            d,
            time_ms,
            if extra { Kind::ExtraDialogCloaked } else { Kind::OwnedCreated },
            w.hwnd,
            w.detail(),
        )
    }

    /// A top-level window is shown: what that leaves, and what to do. One that is to be cloaked is logged
    /// once it was ([`Model::cloaked_on_show`]).
    pub open spec fn showing(self, d: Desktop, hwnd: isize, cloaked: bool, time_ms: u64) -> (Model, Show) {
        if self.allows(d, hwnd) {
            (self.noted(d, time_ms, Kind::DialogShown, hwnd), Show::Dialog)
        } else {
            let m = self.looked(d, hwnd, time_ms);
            if self.hides(d, hwnd) {
                let n = if m.hidden.contains(hwnd) { m } else { Model { owned: with(m.owned, hwnd), ..m } };
                (n, if cloaked { Show::Nothing } else { Show::Cloak })
            } else if owner(d, hwnd) == 0 {
                (m, Show::Nothing)
            } else if owner(d, hwnd) == self.main {
                (m.noted(d, time_ms, Kind::StaOwnedShown, hwnd), Show::StaOwned)
            } else {
                (m.noted(d, time_ms, Kind::OwnedShown, hwnd), Show::Nothing)
            }
        }
    }

    /// A hidden window that was shown was cloaked.
    pub open spec fn cloaked_on_show(self, d: Desktop, hwnd: isize, time_ms: u64) -> Model {
        (Model { stats: Stats { cloaked_on_show: next_number(self.stats.cloaked_on_show), ..self.stats }, ..self }).noted(
            d,
            time_ms,
            Kind::CloakedOnShow,
            hwnd,
        )
    }

    /// A window got the foreground: what that leaves, and whether it is handed back.
    pub open spec fn fronting(self, d: Desktop, hwnd: isize, time_ms: u64) -> (Model, bool) {
        if self.main == 0 {
            (self, false)
        } else {
            let m = self.looked(d, hwnd, time_ms);
            if self.hides(d, hwnd) && !self.allows(d, hwnd) {
                (
                    (Model { stats: Stats { foreground_restored: next_number(m.stats.foreground_restored), ..m.stats }, ..m }).noted(
                        d,
                        time_ms,
                        Kind::ForegroundRestored,
                        hwnd,
                    ),
                    true,
                )
            } else {
                (m, false)
            }
        }
    }
}

/// What a window is created with.
#[derive(Debug, Clone, Copy, PartialEq, Eq, Structural)]
pub struct Creation {
    pub hwnd: isize,
    pub style: u32,
    pub ex_style: u32,
    /// The owner (0: none).
    pub owner: isize,
}

impl Creation {
    /// What the log says of it.
    pub open spec fn detail(self) -> Detail {
        Detail::Created { owner: self.owner, style: style(self.style), ex_style: style(self.ex_style) }
    }
}

/// What a window that is created is.
#[derive(Debug, Clone, Copy, PartialEq, Eq, Structural)]
pub enum Create {
    Child,
    /// The one dialog of a root: neither cloaked nor refused.
    Dialog,
    /// A hidden root owns it: it is to be cloaked. `extra`: the root has its one dialog already.
    Owned { extra: bool },
    /// The main window owns it.
    StaOwned,
    TopLevel,
}

/// What a window that is shown asks for.
#[derive(Debug, Clone, Copy, PartialEq, Eq, Structural)]
pub enum Show {
    Nothing,
    /// Tell whoever waits for the dialog.
    Dialog,
    /// Cloak it.
    Cloak,
    /// Tell whoever waits for windows that the main window owns.
    StaOwned,
}

// ------------------------------------------------------------------------------ functions

impl Registry {
    /// Nothing is listed twice, no root has two dialogs, and only so many events are kept.
    pub open spec fn valid(self) -> bool {
        self@.valid()
    }

    /// Nothing is hidden.
    pub fn new() -> (r: Registry)
        ensures
            r@ == (Model {
                hidden: Seq::empty(),
                owned: Seq::empty(),
                dialogs: Seq::empty(),
                main: 0,
                installed: false,
                stats: Stats {
                    activations_blocked: 0,
                    cloaked_at_create: 0,
                    cloak_at_create_failed: 0,
                    cloaked_on_show: 0,
                    foreground_restored: 0,
                    extra_dialogs_cloaked: 0,
                },
                log: Seq::empty(),
            }),
            r.valid(),
    {
        proof {
            assert(entries(Seq::empty()) =~= Seq::empty());
        }
        Registry {
            hidden: Vec::new(),
            owned: Vec::new(),
            dialogs: Vec::new(),
            main: 0,
            installed: false,
            stats: Stats {
                activations_blocked: 0,
                cloaked_at_create: 0,
                cloak_at_create_failed: 0,
                cloaked_on_show: 0,
                foreground_restored: 0,
                extra_dialogs_cloaked: 0,
            },
            log: VecDeque::new(),
        }
    }
}

fn record(state: &mut Registry, d: &Desktop, time_ms: u64, kind: Kind, hwnd: isize, extra: Extra)
    requires
        old(state).valid(),
    ensures
        final(state)@ == old(state)@.record(*d, time_ms, kind, hwnd, extra@),
        final(state).valid(),
{
    let ghost e = Entry { time_ms, kind, window: look(*d, hwnd), extra: extra@ };
    state.log.push_back(Logged { time_ms, kind, window: described(d, hwnd), extra });
    proof {
        assert(entries(state.log@) =~= entries(old(state).log@).push(e));
    }
    if state.log.len() > RECENT {
        let ghost all = state.log@;
        state.log.pop_front();
        proof {
            assert(entries(state.log@) =~= entries(all).skip(entries(all).len() - RECENT));
        }
    }
    proof {
        assert(state@ =~= old(state)@.record(*d, time_ms, kind, hwnd, extra@));
    }
}

fn note(state: &mut Registry, d: &Desktop, time_ms: u64, kind: Kind, hwnd: isize)
    requires
        old(state).valid(),
    ensures
        final(state)@ == old(state)@.noted(*d, time_ms, kind, hwnd),
        final(state).valid(),
{
    record(state, d, time_ms, kind, hwnd, Extra::Nothing);
}

fn created(w: Creation) -> (r: Extra)
    ensures
        r@ == w.detail(),
{
    Extra::Created { owner: w.owner, style: style_text(w.style), ex_style: style_text(w.ex_style) }
}

/// The window or one of its owners is a hidden root. A window that was taken for an owned one and is
/// not any more (its number may belong to another window now) is forgotten.
pub fn is_hidden(state: &mut Registry, d: &Desktop, hwnd: isize, time_ms: u64) -> (r: bool)
    requires
        old(state).valid(),
    ensures
        r == old(state)@.hides(*d, hwnd),
        final(state)@ == old(state)@.looked(*d, hwnd, time_ms),
        final(state).valid(),
{
    if hwnd == 0 {
        return false;
    }
    if chain_reaches(d, &state.hidden, hwnd) {
        return true;
    }
    if lists(&state.owned, hwnd) {
        take_out(&mut state.owned, hwnd);
        proof {
            assert(state@ =~= (Model { owned: without(old(state)@.owned, hwnd), ..old(state)@ }));
        }
        note(state, d, time_ms, Kind::OwnedForgotten, hwnd);
    }
    false
}

/// The window is an admitted dialog, or one owns it.
pub fn is_allowed_dialog(state: &Registry, d: &Desktop, hwnd: isize) -> (r: bool)
    ensures
        r == state@.allows(*d, hwnd),
{
    if hwnd == 0 {
        return false;
    }
    let mut list: Vec<isize> = Vec::new();
    let mut i: usize = 0;
    let ghost whole = admitted(state.dialogs@, 0);
    proof {
        assert(list@ + whole =~= whole);
    }
    while i < state.dialogs.len()
        invariant
            i <= state.dialogs@.len(),
            whole == list@ + admitted(state.dialogs@, i as int),
        decreases state.dialogs@.len() - i,
    {
        let ghost before = list@;
        let dialog: isize = state.dialogs[i].dialog;
        if dialog != 0 {
            list.push(dialog);
            proof {
                assert(before + (seq![dialog] + admitted(state.dialogs@, i + 1)) =~= list@ + admitted(state.dialogs@, i + 1));
            }
        }
        i = i + 1;
    }
    proof {
        assert(list@ + Seq::<isize>::empty() =~= list@);
    }
    chain_reaches(d, &list, hwnd)
}

fn find_slot(dialogs: &Vec<DialogRoot>, root: isize) -> (r: Option<usize>)
    ensures
        match r {
            Some(i) => slot_of(dialogs@, root, 0) == Some(i as int) && i < dialogs@.len() && dialogs@[i as int].root == root,
            None => slot_of(dialogs@, root, 0) is None && forall|k: int| 0 <= k < dialogs@.len() ==> dialogs@[k].root != root,
        },
{
    let mut i: usize = 0;
    while i < dialogs.len()
        invariant
            i <= dialogs@.len(),
            forall|k: int| 0 <= k < i ==> dialogs@[k].root != root,
            slot_of(dialogs@, root, 0) == slot_of(dialogs@, root, i as int),
        decreases dialogs@.len() - i,
    {
        if dialogs[i].root == root {
            return Some(i);
        }
        i = i + 1;
    }
    None
}

/// A hidden root may show and activate one dialog that it owns, or may not any more.
pub fn allow_dialogs(state: &mut Registry, d: &Desktop, root: isize, allow: bool, time_ms: u64)
    requires
        old(state).valid(),
    ensures
        final(state).valid(),
        ({
            let m = old(state)@;
            let changed = match slot_of(m.dialogs, root, 0) {
                Some(i) => if allow { m } else { Model { dialogs: m.dialogs.remove(i), ..m } },
                None => if allow { Model { dialogs: m.dialogs.push((DialogRoot { root, dialog: 0 })), ..m } } else { m },
            };
            final(state)@ == changed.noted(*d, time_ms, if allow { Kind::DialogsAllowed } else { Kind::DialogsRefused }, root)
        }),
{
    match find_slot(&state.dialogs, root) {
        Some(i) => {
            if !allow {
                state.dialogs.remove(i);
            }
        },
        None => {
            if allow {
                state.dialogs.push(DialogRoot { root, dialog: 0 });
            }
        },
    }
    proof {
        let m = old(state)@;
        assert(state@ =~= (match slot_of(m.dialogs, root, 0) {
            Some(i) => if allow { m } else { Model { dialogs: m.dialogs.remove(i), ..m } },
            None => if allow { Model { dialogs: m.dialogs.push((DialogRoot { root, dialog: 0 })), ..m } } else { m },
        }));
    }
    note(state, d, time_ms, if allow { Kind::DialogsAllowed } else { Kind::DialogsRefused }, root);
}

/// The root's one dialog is left alone.
pub fn allows_dialogs(state: &Registry, root: isize) -> (r: bool)
    ensures
        r == state@.allows_dialogs(root),
{
    find_slot(&state.dialogs, root).is_some()
}

/// The first window that a root creates is the dialog that is waited for; a later one is only admitted
/// if that window is gone.
pub fn admit_dialog(state: &mut Registry, d: &Desktop, root: isize, hwnd: isize) -> (r: bool)
    requires
        old(state).valid(),
    ensures
        r == old(state)@.admits(*d, root, hwnd),
        final(state)@ == (if r { old(state)@.with_dialog(root, hwnd) } else { old(state)@ }),
        final(state).valid(),
{
    match find_slot(&state.dialogs, root) {
        Some(i) => {
            let dialog: isize = state.dialogs[i].dialog;
            if dialog == hwnd || dialog == 0 || !is_window(d, dialog) {
                state.dialogs.set(i, DialogRoot { root, dialog: hwnd });
                proof {
                    assert(state@ =~= old(state)@.with_dialog(root, hwnd));
                }
                return true;
            }
            false
        },
        None => false,
    }
}

/// An activation is asked for. Returns whether it is refused: of a hidden window and of every window
/// that one owns, but not of an admitted dialog.
pub fn on_activate(state: &mut Registry, d: &Desktop, hwnd: isize, time_ms: u64) -> (r: bool)
    requires
        old(state).valid(),
    ensures
        (final(state)@, r) == old(state)@.activating(*d, hwnd, time_ms),
        final(state).valid(),
{
    let hidden = is_hidden(state, d, hwnd, time_ms);
    if hidden && !is_allowed_dialog(state, d, hwnd) {
        state.stats.activations_blocked = bump(state.stats.activations_blocked);
        note(state, d, time_ms, Kind::ActivateBlocked, hwnd);
        return true;
    }
    false
}

/// A window is created. One of a hidden root is to be cloaked ([`on_cloaked_at_create`] is due then),
/// except the one dialog of a root that is left alone.
pub fn on_create(state: &mut Registry, d: &Desktop, w: Creation, time_ms: u64) -> (r: Create)
    requires
        old(state).valid(),
    ensures
        (final(state)@, r) == old(state)@.creating(*d, w, time_ms),
        final(state).valid(),
{
    if w.style & WS_CHILD != 0 {
        return Create::Child;
    }
    if w.owner == 0 {
        record(state, d, time_ms, Kind::TopLevelCreated, w.hwnd, created(w));
        return Create::TopLevel;
    }
    if is_hidden(state, d, w.owner, time_ms) {
        if admit_dialog(state, d, w.owner, w.hwnd) {
            record(state, d, time_ms, Kind::DialogCreated, w.hwnd, created(w));
            return Create::Dialog;
        }
        let extra = allows_dialogs(state, w.owner);
        put(&mut state.owned, w.hwnd);
        return Create::Owned { extra };
    }
    if w.owner == state.main {
        record(state, d, time_ms, Kind::StaOwnedCreated, w.hwnd, created(w));
        Create::StaOwned
    } else {
        record(state, d, time_ms, Kind::TopLevelCreated, w.hwnd, created(w));
        Create::TopLevel
    }
}

/// A window was cloaked while it was created, or could not be. (The window system may report a failure
/// and cloak it all the same: what is read back decides.)
pub fn on_cloaked_at_create(
    state: &mut Registry,
    d: &Desktop,
    w: Creation,
    extra: bool,
    set: bool,
    cloaked: bool,
    time_ms: u64,
)
    requires
        old(state).valid(),
    ensures
        final(state)@ == old(state)@.cloaked_at_create(*d, w, extra, set || cloaked, time_ms),
        final(state).valid(),
{
    if set || cloaked {
        state.stats.cloaked_at_create = bump(state.stats.cloaked_at_create);
    } else {
        state.stats.cloak_at_create_failed = bump(state.stats.cloak_at_create_failed);
    }
    if extra {
        state.stats.extra_dialogs_cloaked = bump(state.stats.extra_dialogs_cloaked);
    }
    proof {
        assert(state@ =~= (Model { stats: state.stats, ..old(state)@ }));
    }
    record(state, d, time_ms, if extra { Kind::ExtraDialogCloaked } else { Kind::OwnedCreated }, w.hwnd, created(w));
}

/// A window is shown. `root`: the top-level window that it belongs to; `cloaked`: it is cloaked. Where
/// it is to be cloaked, [`on_cloaked_on_show`] is due.
pub fn on_show(state: &mut Registry, d: &Desktop, hwnd: isize, root: isize, cloaked: bool, time_ms: u64) -> (r: Show)
    requires
        old(state).valid(),
    ensures
        if hwnd == 0 || root != hwnd {
            final(state)@ == old(state)@ && r == Show::Nothing
        } else {
            (final(state)@, r) == old(state)@.showing(*d, hwnd, cloaked, time_ms)
        },
        final(state).valid(),
{
    if hwnd == 0 || root != hwnd {
        return Show::Nothing;
    }
    if is_allowed_dialog(state, d, hwnd) {
        note(state, d, time_ms, Kind::DialogShown, hwnd);
        return Show::Dialog;
    }
    if is_hidden(state, d, hwnd, time_ms) {
        if !lists(&state.hidden, hwnd) {
            put(&mut state.owned, hwnd);
        }
        return if cloaked { Show::Nothing } else { Show::Cloak };
    }
    let by: isize = owner_of(d, hwnd);
    if by == 0 {
        Show::Nothing
    } else if by == state.main {
        note(state, d, time_ms, Kind::StaOwnedShown, hwnd);
        Show::StaOwned
    } else {
        note(state, d, time_ms, Kind::OwnedShown, hwnd);
        Show::Nothing
    }
}

/// A hidden window that was shown was cloaked.
pub fn on_cloaked_on_show(state: &mut Registry, d: &Desktop, hwnd: isize, time_ms: u64)
    requires
        old(state).valid(),
    ensures
        final(state)@ == old(state)@.cloaked_on_show(*d, hwnd, time_ms),
        final(state).valid(),
{
    state.stats.cloaked_on_show = bump(state.stats.cloaked_on_show);
    proof {
        assert(state@ =~= (Model { stats: state.stats, ..old(state)@ }));
    }
    note(state, d, time_ms, Kind::CloakedOnShow, hwnd);
}

/// A window got the foreground. Returns whether it is handed back to the main window.
pub fn on_foreground(state: &mut Registry, d: &Desktop, hwnd: isize, time_ms: u64) -> (r: bool)
    requires
        old(state).valid(),
    ensures
        (final(state)@, r) == old(state)@.fronting(*d, hwnd, time_ms),
        final(state).valid(),
{
    if state.main == 0 {
        return false;
    }
    let hidden = is_hidden(state, d, hwnd, time_ms);
    if hidden && !is_allowed_dialog(state, d, hwnd) {
        state.stats.foreground_restored = bump(state.stats.foreground_restored);
        note(state, d, time_ms, Kind::ForegroundRestored, hwnd);
        return true;
    }
    false
}

/// The main window is known. Returns whether the hooks are still to be installed ([`on_installed`] is due
/// then).
pub fn install(state: &mut Registry, main_hwnd: isize) -> (r: bool)
    requires
        old(state).valid(),
    ensures
        r == !old(state)@.installed,
        final(state)@ == (Model { main: if main_hwnd != 0 { main_hwnd } else { old(state)@.main }, ..old(state)@ }),
        final(state).valid(),
{
    if main_hwnd != 0 {
        state.main = main_hwnd;
    }
    !state.installed
}

/// The hooks were installed, or could not be.
pub fn on_installed(state: &mut Registry, ok: bool)
    requires
        old(state).valid(),
    ensures
        final(state)@ == (Model { installed: ok, ..old(state)@ }),
        final(state).valid(),
{
    state.installed = ok;
}

/// The hooks are gone, and nothing is hidden any more.
pub fn uninstall(state: &mut Registry)
    requires
        old(state).valid(),
    ensures
        final(state)@ == (Model {
            hidden: Seq::empty(),
            owned: Seq::empty(),
            dialogs: Seq::empty(),
            installed: false,
            ..old(state)@
        }),
        final(state).valid(),
{
    state.installed = false;
    state.hidden.clear();
    state.owned.clear();
    state.dialogs.clear();
}

/// Hides a root, except the main window. Returns whether it is to be cloaked ([`on_root_cloaked`] is
/// due then).
pub fn hide_root(state: &mut Registry, root: isize) -> (r: bool)
    requires
        old(state).valid(),
    ensures
        r == (root != 0 && root != old(state)@.main),
        final(state)@ == (if r { Model { hidden: with(old(state)@.hidden, root), ..old(state)@ } } else { old(state)@ }),
        final(state).valid(),
{
    if root == 0 || root == state.main {
        return false;
    }
    put(&mut state.hidden, root);
    true
}

/// A root that is hidden was cloaked, or could not be.
pub fn on_root_cloaked(state: &mut Registry, d: &Desktop, root: isize, ok: bool, time_ms: u64)
    requires
        old(state).valid(),
    ensures
        final(state)@ == old(state)@.record(*d, time_ms, Kind::Hidden, root, Detail::Cloaked { ok }),
        final(state).valid(),
{
    record(state, d, time_ms, Kind::Hidden, root, Extra::Cloaked { ok });
}

/// The windows from position `i` on that have the root in their owner chain, and those that do not.
pub open spec fn chained(d: Desktop, list: Seq<isize>, root: isize, i: int) -> (Seq<isize>, Seq<isize>)
    decreases list.len() - i,
{
    if i < 0 || i >= list.len() {
        (Seq::empty(), Seq::empty())
    } else {
        let rest = chained(d, list, root, i + 1);
        if reaches(d, seq![root], list[i], MAX_OWNER_DEPTH as int) {
            (seq![list[i]] + rest.0, rest.1)
        } else {
            (rest.0, seq![list[i]] + rest.1)
        }
    }
}

/// The windows that exist.
pub open spec fn existing(d: Desktop, list: Seq<isize>, i: int) -> Seq<isize>
    decreases list.len() - i,
{
    if i < 0 || i >= list.len() {
        Seq::empty()
    } else if exists_in(d, list[i]) {
        seq![list[i]] + existing(d, list, i + 1)
    } else {
        existing(d, list, i + 1)
    }
}

/// Both parts of a list hold windows of it from position `i` on, each as often as the list does.
proof fn chained_repeats_nothing(d: Desktop, list: Seq<isize>, root: isize, i: int)
    requires
        list.no_duplicates(),
        0 <= i,
    ensures
        chained(d, list, root, i).0.no_duplicates(),
        chained(d, list, root, i).1.no_duplicates(),
        forall|y: isize| chained(d, list, root, i).0.contains(y) ==> exists|k: int| i <= k < list.len() && list[k] == y,
        forall|y: isize| chained(d, list, root, i).1.contains(y) ==> exists|k: int| i <= k < list.len() && list[k] == y,
    decreases list.len() - i,
{
    if i < list.len() {
        chained_repeats_nothing(d, list, root, i + 1);
        let rest = chained(d, list, root, i + 1);
        let all = chained(d, list, root, i);
        assert(!rest.0.contains(list[i]) && !rest.1.contains(list[i]));
        assert forall|y: isize| all.0.contains(y) implies exists|k: int| i <= k < list.len() && list[k] == y by {
            let n = choose|n: int| 0 <= n < all.0.len() && all.0[n] == y;
            if all.0 == rest.0 {
                assert(rest.0.contains(y));
            } else if n > 0 {
                assert(rest.0[n - 1] == y);
                assert(rest.0.contains(y));
            } else {
                assert(list[i] == y);
            }
        }
        assert forall|y: isize| all.1.contains(y) implies exists|k: int| i <= k < list.len() && list[k] == y by {
            let n = choose|n: int| 0 <= n < all.1.len() && all.1[n] == y;
            if all.1 == rest.1 {
                assert(rest.1.contains(y));
            } else if n > 0 {
                assert(rest.1[n - 1] == y);
                assert(rest.1.contains(y));
            } else {
                assert(list[i] == y);
            }
        }
    }
}

/// The windows that exist are windows of the list from position `i` on, each as often as the list does.
proof fn existing_repeats_nothing(d: Desktop, list: Seq<isize>, i: int)
    requires
        list.no_duplicates(),
        0 <= i,
    ensures
        existing(d, list, i).no_duplicates(),
        forall|y: isize| existing(d, list, i).contains(y) ==> exists|k: int| i <= k < list.len() && list[k] == y,
    decreases list.len() - i,
{
    if i < list.len() {
        existing_repeats_nothing(d, list, i + 1);
        let rest = existing(d, list, i + 1);
        let all = existing(d, list, i);
        assert(!rest.contains(list[i]));
        assert forall|y: isize| all.contains(y) implies exists|k: int| i <= k < list.len() && list[k] == y by {
            let n = choose|n: int| 0 <= n < all.len() && all[n] == y;
            if all == rest {
                assert(rest.contains(y));
            } else if n > 0 {
                assert(rest[n - 1] == y);
                assert(rest.contains(y));
            } else {
                assert(list[i] == y);
            }
        }
    }
}

fn split_chained(d: &Desktop, list: &Vec<isize>, root: isize) -> (r: (Vec<isize>, Vec<isize>))
    ensures
        (r.0@, r.1@) == chained(*d, list@, root, 0),
        list@.no_duplicates() ==> r.0@.no_duplicates() && r.1@.no_duplicates(),
{
    let mut mine: Vec<isize> = Vec::new();
    let mut others: Vec<isize> = Vec::new();
    let ghost whole = chained(*d, list@, root, 0);
    proof {
        assert(mine@ + whole.0 =~= whole.0);
        assert(others@ + whole.1 =~= whole.1);
    }
    let mut i: usize = 0;
    while i < list.len()
        invariant
            i <= list@.len(),
            whole.0 == mine@ + chained(*d, list@, root, i as int).0,
            whole.1 == others@ + chained(*d, list@, root, i as int).1,
        decreases list@.len() - i,
    {
        let w: isize = list[i];
        let ghost before = (mine@, others@);
        let ghost rest = chained(*d, list@, root, i + 1);
        if owner_chain_contains(d, w, root) {
            mine.push(w);
            proof {
                assert(before.0 + (seq![w] + rest.0) =~= mine@ + rest.0);
            }
        } else {
            others.push(w);
            proof {
                assert(before.1 + (seq![w] + rest.1) =~= others@ + rest.1);
            }
        }
        i = i + 1;
    }
    proof {
        assert(mine@ + Seq::<isize>::empty() =~= mine@);
        assert(others@ + Seq::<isize>::empty() =~= others@);
        if list@.no_duplicates() {
            chained_repeats_nothing(*d, list@, root, 0);
        }
    }
    (mine, others)
}

fn only_existing(d: &Desktop, list: &Vec<isize>) -> (r: Vec<isize>)
    ensures
        r@ == existing(*d, list@, 0),
        list@.no_duplicates() ==> r@.no_duplicates(),
{
    let mut out: Vec<isize> = Vec::new();
    let ghost whole = existing(*d, list@, 0);
    proof {
        assert(out@ + whole =~= whole);
    }
    let mut i: usize = 0;
    while i < list.len()
        invariant
            i <= list@.len(),
            whole == out@ + existing(*d, list@, i as int),
        decreases list@.len() - i,
    {
        let ghost before = out@;
        let ghost rest = existing(*d, list@, i + 1);
        if is_window(d, list[i]) {
            out.push(list[i]);
            proof {
                assert(before + (seq![list@[i as int]] + rest) =~= out@ + rest);
            }
        }
        i = i + 1;
    }
    proof {
        assert(out@ + Seq::<isize>::empty() =~= out@);
        if list@.no_duplicates() {
            existing_repeats_nothing(*d, list@, 0);
        }
    }
    out
}

/// Shows a root and the windows that it owns (a window that stays). Returns the windows to uncloak
/// ([`on_root_shown`] is due then).
pub fn show_root(state: &mut Registry, d: &Desktop, root: isize) -> (r: Vec<isize>)
    requires
        old(state).valid(),
    ensures
        final(state).valid(),
        ({
            let m = old(state)@;
            let parts = chained(*d, m.owned, root, 0);
            if root == 0 {
                final(state)@ == m && r@.len() == 0
            } else {
                &&& final(state)@ == (Model { hidden: without(m.hidden, root), owned: parts.1, ..m })
                &&& r@ == seq![root] + existing(*d, parts.0, 0)
            }
        }),
{
    let mut out: Vec<isize> = Vec::new();
    if root == 0 {
        return out;
    }
    take_out(&mut state.hidden, root);
    let parts = split_chained(d, &state.owned, root);
    let mut mine = only_existing(d, &parts.0);
    state.owned = parts.1;
    proof {
        assert(state@ =~= (Model {
            hidden: without(old(state)@.hidden, root),
            owned: chained(*d, old(state)@.owned, root, 0).1,
            ..old(state)@
        }));
    }
    out.push(root);
    out.append(&mut mine);
    proof {
        assert(out@ =~= seq![root] + existing(*d, chained(*d, old(state)@.owned, root, 0).0, 0));
    }
    out
}

/// A root and the windows that it owns were uncloaked.
pub fn on_root_shown(state: &mut Registry, d: &Desktop, root: isize, time_ms: u64)
    requires
        old(state).valid(),
    ensures
        final(state)@ == old(state)@.noted(*d, time_ms, Kind::Shown, root),
        final(state).valid(),
{
    note(state, d, time_ms, Kind::Shown, root);
}

/// The browsers of a root are gone: it and the windows that it owned are forgotten.
pub fn forget_root(state: &mut Registry, d: &Desktop, root: isize, time_ms: u64)
    requires
        old(state).valid(),
    ensures
        final(state).valid(),
        ({
            let m = old(state)@;
            let quiet = (match slot_of(m.dialogs, root, 0) {
                Some(i) => Model { dialogs: m.dialogs.remove(i), ..m },
                None => m,
            }).noted(*d, time_ms, Kind::DialogsRefused, root);
            final(state)@ == (Model {
                hidden: without(m.hidden, root),
                owned: existing(*d, chained(*d, m.owned, root, 0).1, 0),
                ..quiet
            })
        }),
{
    allow_dialogs(state, d, root, false, time_ms);
    take_out(&mut state.hidden, root);
    let parts = split_chained(d, &state.owned, root);
    state.owned = only_existing(d, &parts.1);
}

/// Windows as they look.
pub open spec fn looks_of(d: Desktop, list: Seq<isize>) -> Seq<Look> {
    Seq::new(list.len(), |i: int| look(d, list[i]))
}

/// Windows as mathematics.
pub open spec fn views(list: Seq<WindowDescription>) -> Seq<Look> {
    Seq::new(list.len(), |i: int| list[i]@)
}

fn described_all(d: &Desktop, list: &Vec<isize>) -> (r: Vec<WindowDescription>)
    ensures
        views(r@) == looks_of(*d, list@),
{
    let mut out: Vec<WindowDescription> = Vec::new();
    let mut i: usize = 0;
    while i < list.len()
        invariant
            i <= list@.len(),
            out@.len() == i,
            forall|k: int| 0 <= k < i ==> (#[trigger] out@[k])@ == look(*d, list@[k]),
        decreases list@.len() - i,
    {
        out.push(described(d, list[i]));
        i = i + 1;
    }
    proof {
        assert(views(out@) =~= looks_of(*d, list@));
    }
    out
}

/// The hidden windows as they look from outside.
pub struct Snapshot {
    pub installed: bool,
    pub hidden: Vec<WindowDescription>,
    pub owned: Vec<WindowDescription>,
    pub dialogs: Vec<DialogRoot>,
    pub stats: Stats,
    pub recent: Vec<Logged>,
}

/// The hidden windows as they look from outside: of those that a root owns only the ones that exist.
pub fn snapshot(state: &Registry, d: &Desktop) -> (r: Snapshot)
    ensures
        r.installed == state@.installed,
        views(r.hidden@) == looks_of(*d, state@.hidden),
        views(r.owned@) == looks_of(*d, existing(*d, state@.owned, 0)),
        r.dialogs@ == state@.dialogs,
        r.stats == state@.stats,
        entries(r.recent@) == state@.log,
{
    let mut dialogs: Vec<DialogRoot> = Vec::new();
    let mut j: usize = 0;
    while j < state.dialogs.len()
        invariant
            j <= state.dialogs@.len(),
            dialogs@ == state.dialogs@.take(j as int),
        decreases state.dialogs@.len() - j,
    {
        dialogs.push(state.dialogs[j]);
        j = j + 1;
        proof {
            assert(dialogs@ =~= state.dialogs@.take(j as int));
        }
    }
    let mut recent: Vec<Logged> = Vec::new();
    let mut k: usize = 0;
    while k < state.log.len()
        invariant
            k <= state.log@.len(),
            recent@.len() == k,
            forall|n: int| 0 <= n < k ==> (#[trigger] recent@[n])@ == state.log@[n]@,
        decreases state.log@.len() - k,
    {
        let e = &state.log[k];
        recent.push(Logged { time_ms: e.time_ms, kind: e.kind, window: copy_window(&e.window), extra: copy_extra(&e.extra) });
        k = k + 1;
    }
    proof {
        assert(dialogs@ =~= state.dialogs@);
        assert(entries(recent@) =~= entries(state.log@));
    }
    let owned = only_existing(d, &state.owned);
    Snapshot {
        installed: state.installed,
        hidden: described_all(d, &state.hidden),
        owned: described_all(d, &owned),
        dialogs,
        stats: state.stats,
        recent,
    }
}

// ------------------------------------------------------------------------------ one window

/// What the window system says of a window.
pub struct RawWindow {
    pub class: String,
    pub title: String,
    pub style: u32,
    pub ex_style: u32,
    pub owner: isize,
    pub visible: bool,
    pub cloaked: bool,
    pub edges: Edges,
}

/// A window in words and numbers.
#[derive(Debug)]
pub struct WindowDescription {
    pub hwnd: isize,
    pub class: String,
    pub title: String,
    /// The styles in hexadecimal (`0x16cf0000`).
    pub style: String,
    pub ex_style: String,
    pub owner: isize,
    pub visible: bool,
    pub cloaked: bool,
    /// `[x, y, width, height]`.
    pub rect: [i32; 4],
}

/// A window in words and numbers, as mathematics.
pub struct Look {
    pub hwnd: isize,
    pub class: Seq<char>,
    pub title: Seq<char>,
    pub style: Seq<char>,
    pub ex_style: Seq<char>,
    pub owner: isize,
    pub visible: bool,
    pub cloaked: bool,
    pub rect: Seq<i32>,
}

impl View for WindowDescription {
    type V = Look;

    open spec fn view(&self) -> Look {
        Look {
            hwnd: self.hwnd,
            class: self.class@,
            title: self.title@,
            style: self.style@,
            ex_style: self.ex_style@,
            owner: self.owner,
            visible: self.visible,
            cloaked: self.cloaked,
            rect: self.rect@,
        }
    }
}

/// A style in hexadecimal.
pub open spec fn style(value: u32) -> Seq<char> {
    "0x"@ + hex_short(value as nat)
}

fn style_text(value: u32) -> (r: String)
    ensures
        r@ == style(value),
{
    join2("0x", hex_short_text(value as u64).as_str())
}

fn copy_window(w: &WindowDescription) -> (r: WindowDescription)
    ensures
        r@ == w@,
{
    WindowDescription {
        hwnd: w.hwnd,
        class: copy_text(w.class.as_str()),
        title: copy_text(w.title.as_str()),
        style: copy_text(w.style.as_str()),
        ex_style: copy_text(w.ex_style.as_str()),
        owner: w.owner,
        visible: w.visible,
        cloaked: w.cloaked,
        rect: w.rect,
    }
}

fn copy_extra(e: &Extra) -> (r: Extra)
    ensures
        r@ == e@,
{
    match e {
        Extra::Nothing => Extra::Nothing,
        Extra::Created { owner, style, ex_style } => Extra::Created {
            owner: *owner,
            style: copy_text(style.as_str()),
            ex_style: copy_text(ex_style.as_str()),
        },
        Extra::Cloaked { ok } => Extra::Cloaked { ok: *ok },
    }
}

/// What a window looks like. Of one that the window system says nothing of, only the owner is known.
pub fn described(d: &Desktop, hwnd: isize) -> (r: WindowDescription)
    ensures
        r@ == look(*d, hwnd),
{
    match d.looks.get(&hwnd) {
        Some(w) => {
            let mut found = copy_window(w);
            found.hwnd = hwnd;
            found
        },
        None => {
            let rect: [i32; 4] = [0, 0, 0, 0];
            let r = WindowDescription {
                hwnd,
                class: String::new(),
                title: String::new(),
                style: style_text(0),
                ex_style: style_text(0),
                owner: owner_of(d, hwnd),
                visible: false,
                cloaked: false,
                rect,
            };
            proof {
                assert(r.class@ =~= Seq::empty());
                assert(r.title@ =~= Seq::empty());
                assert(r.rect@ =~= seq![0i32, 0i32, 0i32, 0i32]);
            }
            r
        },
    }
}

/// A window in words and numbers.
pub fn describe(hwnd: isize, raw: RawWindow) -> (r: WindowDescription)
    requires
        raw.edges.fits(),
    ensures
        r.hwnd == hwnd,
        r.class@ == raw.class@,
        r.title@ == raw.title@,
        r.style@ == style(raw.style),
        r.ex_style@ == style(raw.ex_style),
        r.owner == raw.owner,
        r.visible == raw.visible,
        r.cloaked == raw.cloaked,
        r.rect@ == sided(raw.edges),
{
    let style = style_text(raw.style);
    let ex_style = style_text(raw.ex_style);
    let rect: [i32; 4] = sides(raw.edges);
    WindowDescription {
        hwnd,
        class: raw.class,
        title: raw.title,
        style,
        ex_style,
        owner: raw.owner,
        visible: raw.visible,
        cloaked: raw.cloaked,
        rect,
    }
}

/// The top-level window that a window belongs to, by what the window system says.
pub fn root_of(hwnd: isize, ancestor: isize) -> (r: isize)
    ensures
        r == (if hwnd == 0 { 0 } else { ancestor }),
{
    if hwnd == 0 { 0 } else { ancestor }
}

/// The inside of a window in screen pixels, `[x, y, width, height]`.
pub fn client_rect(hwnd: isize, inside: Option<Edges>) -> (r: Option<[i32; 4]>)
    requires
        inside is Some ==> inside->0.fits(),
    ensures
        r is Some <==> hwnd != 0 && inside is Some,
        r is Some ==> r->0@ == sided(inside->0),
{
    if hwnd == 0 {
        return None;
    }
    match inside {
        Some(e) => Some(sides(e)),
        None => None,
    }
}

/// The top-left corner of the inside of a window.
pub fn client_origin(hwnd: isize, inside: Option<Edges>) -> (r: Option<(i32, i32)>)
    ensures
        r == (match inside {
            Some(e) => if hwnd != 0 { Some((e.left, e.top)) } else { None },
            None => None::<(i32, i32)>,
        }),
{
    if hwnd == 0 {
        return None;
    }
    match inside {
        Some(e) => Some((e.left, e.top)),
        None => None,
    }
}

/// A window, or the part of its screen that windows may cover, in screen pixels.
pub fn window_rect(edges: Option<Edges>) -> (r: Option<[i32; 4]>)
    requires
        edges is Some ==> edges->0.fits(),
    ensures
        r is Some <==> edges is Some,
        r is Some ==> r->0@ == sided(edges->0),
{
    match edges {
        Some(e) => Some(sides(e)),
        None => None,
    }
}

/// The caption of a window that stays as it is: 1 for a dark one, 0 for a light one.
pub fn set_native_caption(hwnd: isize, dark: bool) -> (r: Option<i32>)
    ensures
        r == (if hwnd == 0 { None::<i32> } else { Some(if dark { 1i32 } else { 0i32 }) }),
{
    if hwnd == 0 { None } else { Some(if dark { 1 } else { 0 }) }
}

// ------------------------------------------------------------------------------ what holds

/// A hidden root and every window that it owns is refused the keyboard, unless it is the admitted
/// dialog or one of its windows; no other window is.
pub proof fn only_hidden_windows_are_refused(m: Model, d: Desktop, hwnd: isize, time_ms: u64)
    ensures
        m.activating(d, hwnd, time_ms).1 <==> (m.hides(d, hwnd) && !m.allows(d, hwnd)),
        m.hidden.contains(hwnd) && hwnd != 0 ==> m.hides(d, hwnd),
        m.hidden.contains(owner(d, hwnd)) && owner(d, hwnd) != 0 && hwnd != 0 ==> m.hides(d, hwnd),
{
    reveal_with_fuel(reaches, 3);
}

/// Only one dialog of a root is left alone: while it exists, no other window is admitted, and a window
/// of the root that is created then is to be cloaked.
pub proof fn a_second_dialog_is_cloaked(m: Model, d: Desktop, root: isize, first: isize, second: Creation, time_ms: u64)
    requires
        m.allows_dialogs(root),
        first != 0,
        first != second.hwnd,
        exists_in(d, first),
        root != 0,
        m.hides(d, root),
        second.owner == root,
        second.style & WS_CHILD == 0,
    ensures
        !m.with_dialog(root, first).admits(d, root, second.hwnd),
        m.with_dialog(root, first).creating(d, second, time_ms).1 == (Create::Owned { extra: true }),
{
    slot_found(m.dialogs, root, 0);
    let i = slot_of(m.dialogs, root, 0)->0;
    let after = m.dialogs.update(i, (DialogRoot { root, dialog: first }));
    slot_kept(m.dialogs, after, root, 0, i);
}

/// The slot of a root holds it.
proof fn slot_found(dialogs: Seq<DialogRoot>, root: isize, i: int)
    requires
        0 <= i,
    ensures
        match slot_of(dialogs, root, i) {
            Some(k) => i <= k < dialogs.len() && dialogs[k].root == root,
            None => true,
        },
    decreases dialogs.len() - i,
{
    if i < dialogs.len() && dialogs[i].root != root {
        slot_found(dialogs, root, i + 1);
    }
}

/// A slot stays where it is when its dialog changes.
proof fn slot_kept(before: Seq<DialogRoot>, after: Seq<DialogRoot>, root: isize, i: int, k: int)
    requires
        0 <= i <= k < before.len(),
        before[k].root == root,
        after == before.update(k, (DialogRoot { root, dialog: after[k].dialog })),
        slot_of(before, root, i) == Some(k),
    ensures
        slot_of(after, root, i) == Some(k),
    decreases k - i,
{
    if i < k {
        if before[i].root == root {
            assert(slot_of(before, root, i) == Some(i));
        }
        slot_kept(before, after, root, i + 1, k);
    }
}

/// Showing a root takes it and what it owns off the lists.
pub proof fn a_shown_root_is_not_hidden(m: Model, d: Desktop, root: isize, hwnd: isize)
    requires
        root != 0,
    ensures
        !without(m.hidden, root).contains(root),
        chained(d, m.owned, root, 0).1.contains(hwnd) ==> !reaches(d, seq![root], hwnd, MAX_OWNER_DEPTH as int),
{
    without_leaves_the_others(m.hidden, root, root);
    others_are_not_chained(d, m.owned, root, 0, hwnd);
}

proof fn others_are_not_chained(d: Desktop, list: Seq<isize>, root: isize, i: int, hwnd: isize)
    requires
        0 <= i,
    ensures
        chained(d, list, root, i).1.contains(hwnd) ==> !reaches(d, seq![root], hwnd, MAX_OWNER_DEPTH as int),
    decreases list.len() - i,
{
    if i < list.len() {
        others_are_not_chained(d, list, root, i + 1, hwnd);
        let rest = chained(d, list, root, i + 1).1;
        let all = chained(d, list, root, i).1;
        if all.contains(hwnd) {
            let k = choose|k: int| 0 <= k < all.len() && all[k] == hwnd;
            if !reaches(d, seq![root], list[i], MAX_OWNER_DEPTH as int) {
                if k > 0 {
                    assert(rest[k - 1] == hwnd);
                }
            } else {
                assert(rest[k] == hwnd);
            }
        }
    }
}

/// Windows of which each is owned by the next.
pub open spec fn owner_chain(d: Desktop, c: Seq<isize>) -> bool {
    &&& c.len() > 0
    &&& forall|i: int|
        0 <= i < c.len() - 1 ==> d.owners@.contains_key(#[trigger] c[i]) && c[i + 1] == d.owners@[c[i]] && d.owners@[c[i]] != 0
}

proof fn a_chain_reaches(d: Desktop, list: Seq<isize>, c: Seq<isize>, depth: int)
    requires
        owner_chain(d, c),
        c.len() <= depth,
        list.contains(c.last()),
    ensures
        reaches(d, list, c[0], depth),
    decreases c.len(),
{
    if c.len() > 1 {
        let rest = c.skip(1);
        assert forall|i: int| 0 <= i < rest.len() - 1 implies d.owners@.contains_key(#[trigger] rest[i]) && rest[i + 1] == d.owners@[rest[i]]
            && d.owners@[rest[i]] != 0 by {
            assert(rest[i] == c[i + 1]);
        }
        assert(rest.last() == c.last());
        assert(d.owners@.contains_key(c[0]));
        a_chain_reaches(d, list, rest, depth - 1);
    }
}

proof fn what_is_reached_has_a_chain(d: Desktop, list: Seq<isize>, hwnd: isize, depth: int) -> (c: Seq<isize>)
    requires
        reaches(d, list, hwnd, depth),
    ensures
        owner_chain(d, c),
        c[0] == hwnd,
        c.len() <= depth,
        list.contains(c.last()),
    decreases depth,
{
    if list.contains(hwnd) {
        let c = seq![hwnd];
        assert(c.last() == hwnd);
        c
    } else {
        let next = owner(d, hwnd);
        let rest = what_is_reached_has_a_chain(d, list, next, depth - 1);
        let c = seq![hwnd] + rest;
        assert forall|i: int| 0 <= i < c.len() - 1 implies d.owners@.contains_key(#[trigger] c[i]) && c[i + 1] == d.owners@[c[i]]
            && d.owners@[c[i]] != 0 by {
            if i == 0 {
                assert(d.owners@.contains_key(hwnd));
            } else {
                assert(c[i] == rest[i - 1]);
            }
        }
        assert(c.last() == rest.last());
        c
    }
}

/// A window is hidden where a chain of at most eight windows, each owned by the next, leads from it to a
/// hidden root, and nowhere else. No window is hidden where there is none.
pub proof fn hiding_follows_the_owners(m: Model, d: Desktop, hwnd: isize)
    ensures
        forall|c: Seq<isize>|
            #[trigger] owner_chain(d, c) && c.len() <= 8 && c[0] == hwnd && hwnd != 0 && m.hidden.contains(c.last()) ==> m.hides(d, hwnd),
        m.hides(d, hwnd) ==> hwnd != 0 && exists|c: Seq<isize>|
            #[trigger] owner_chain(d, c) && c.len() <= 8 && c[0] == hwnd && m.hidden.contains(c.last()),
{
    assert forall|c: Seq<isize>|
        #[trigger] owner_chain(d, c) && c.len() <= 8 && c[0] == hwnd && hwnd != 0 && m.hidden.contains(c.last()) implies m.hides(d, hwnd) by {
        a_chain_reaches(d, m.hidden, c, 8);
    }
    if m.hides(d, hwnd) {
        let c = what_is_reached_has_a_chain(d, m.hidden, hwnd, 8);
        assert(owner_chain(d, c));
    }
}

proof fn admitted_are_the_dialogs(dialogs: Seq<DialogRoot>, i: int, hwnd: isize)
    requires
        0 <= i <= dialogs.len(),
    ensures
        admitted(dialogs, i).contains(hwnd) <==> hwnd != 0 && exists|k: int| i <= k < dialogs.len() && (#[trigger] dialogs[k]).dialog == hwnd,
    decreases dialogs.len() - i,
{
    if i < dialogs.len() {
        admitted_are_the_dialogs(dialogs, i + 1, hwnd);
        let all = admitted(dialogs, i);
        let rest = admitted(dialogs, i + 1);
        if dialogs[i].dialog != 0 {
            assert(all =~= seq![dialogs[i].dialog] + rest);
            assert(all[0] == dialogs[i].dialog);
            if rest.contains(hwnd) {
                let k = choose|k: int| 0 <= k < rest.len() && rest[k] == hwnd;
                assert(all[k + 1] == hwnd);
            }
            if all.contains(hwnd) {
                let k = choose|k: int| 0 <= k < all.len() && all[k] == hwnd;
                if k > 0 {
                    assert(rest[k - 1] == hwnd);
                }
            }
        }
    } else {
        assert(admitted(dialogs, i) =~= Seq::empty());
    }
}

/// A window is left alone where a chain of at most eight windows, each owned by the next, leads from it to
/// the dialog of a root, and nowhere else.
pub proof fn an_admitted_dialog_is_left_alone(m: Model, d: Desktop, hwnd: isize)
    ensures
        forall|c: Seq<isize>, k: int|
            #[trigger] owner_chain(d, c) && c.len() <= 8 && c[0] == hwnd && hwnd != 0 && 0 <= k < m.dialogs.len() && c.last()
                == (#[trigger] m.dialogs[k]).dialog && c.last() != 0 ==> m.allows(d, hwnd),
        m.allows(d, hwnd) ==> hwnd != 0 && exists|c: Seq<isize>, k: int|
            #[trigger] owner_chain(d, c) && c.len() <= 8 && c[0] == hwnd && 0 <= k < m.dialogs.len() && c.last()
                == (#[trigger] m.dialogs[k]).dialog && c.last() != 0,
{
    let list = admitted(m.dialogs, 0);
    assert forall|c: Seq<isize>, k: int|
        #[trigger] owner_chain(d, c) && c.len() <= 8 && c[0] == hwnd && hwnd != 0 && 0 <= k < m.dialogs.len() && c.last()
            == (#[trigger] m.dialogs[k]).dialog && c.last() != 0 implies m.allows(d, hwnd) by {
        admitted_are_the_dialogs(m.dialogs, 0, c.last());
        a_chain_reaches(d, list, c, 8);
    }
    if m.allows(d, hwnd) {
        let c = what_is_reached_has_a_chain(d, list, hwnd, 8);
        admitted_are_the_dialogs(m.dialogs, 0, c.last());
        let k = choose|k: int| 0 <= k < m.dialogs.len() && (#[trigger] m.dialogs[k]).dialog == c.last();
        assert(owner_chain(d, c) && m.dialogs[k].dialog == c.last());
    }
}

/// The last forty-eight events are kept, in order, the newest last.
pub proof fn the_newest_events_are_kept(log: Seq<Entry>, e: Entry)
    requires
        log.len() <= 48,
    ensures
        logged(log, e).len() == (if log.len() < 48 { log.len() + 1 } else { 48 }),
        logged(log, e).last() == e,
        forall|i: int| 0 <= i < logged(log, e).len() - 1 ==> #[trigger] logged(log, e)[i] == log[i + log.len() + 1 - logged(log, e).len()],
{
}

/// An activation that is refused is counted and logged with its window and its time; one that is not changes
/// no count, and nothing that is hidden or left alone.
pub proof fn a_refused_activation_is_counted(m: Model, d: Desktop, hwnd: isize, time_ms: u64)
    requires
        m.valid(),
    ensures
        ({
            let (n, refused) = m.activating(d, hwnd, time_ms);
            &&& n.hidden == m.hidden && n.dialogs == m.dialogs && n.main == m.main && n.installed == m.installed
            &&& refused ==> {
                &&& n.log.len() > 0 && n.log.last().kind is ActivateBlocked && n.log.last().window.hwnd == hwnd && n.log.last().time_ms
                    == time_ms && n.log.last().extra is Nothing
                &&& m.stats.activations_blocked < u64::MAX ==> n.stats == (Stats {
                    activations_blocked: (m.stats.activations_blocked + 1) as u64,
                    ..m.stats
                })
                &&& n.owned == m.owned
            }
            &&& !refused ==> n.stats == m.stats
            &&& !refused && !m.owned.contains(hwnd) ==> n == m
        }),
{
}

/// A window that took the foreground is sent back where its activation would have been refused, once there
/// is a main window; it is counted and logged.
pub proof fn a_stolen_foreground_goes_back(m: Model, d: Desktop, hwnd: isize, time_ms: u64)
    requires
        m.valid(),
    ensures
        ({
            let (n, back) = m.fronting(d, hwnd, time_ms);
            &&& back <==> m.main != 0 && m.activating(d, hwnd, time_ms).1
            &&& back ==> {
                &&& n.log.len() > 0 && n.log.last().kind is ForegroundRestored && n.log.last().window.hwnd == hwnd && n.log.last().time_ms
                    == time_ms
                &&& m.stats.foreground_restored < u64::MAX ==> n.stats == (Stats {
                    foreground_restored: (m.stats.foreground_restored + 1) as u64,
                    ..m.stats
                })
            }
            &&& !back ==> n.stats == m.stats
            &&& m.main == 0 ==> n == m
            &&& n.hidden == m.hidden && n.dialogs == m.dialogs
        }),
{
}

/// A child window is nobody's concern, whatever its other styles are.
pub proof fn child_windows_are_passed_over(m: Model, d: Desktop, w: Creation, time_ms: u64)
    ensures
        w.style & 0x4000_0000 != 0 ==> m.creating(d, w, time_ms) == (m, Create::Child),
        w.style & 0x4000_0000 == 0 ==> !(m.creating(d, w, time_ms).1 is Child),
{
}

/// A window that is created is what its owner makes it: one of a hidden root is its dialog where it has a
/// place for one, and is cloaked from then on where it has not; one of the main window and one of nobody are
/// told apart. What the log says has the window's owner in it.
pub proof fn a_created_window_belongs_to_its_owner(m: Model, d: Desktop, w: Creation, time_ms: u64)
    requires
        m.valid(),
        w.style & 0x4000_0000 == 0,
    ensures
        ({
            let (n, what) = m.creating(d, w, time_ms);
            let hidden = w.owner != 0 && m.hides(d, w.owner);
            &&& what is TopLevel || what is StaOwned <==> !hidden
            &&& what is StaOwned <==> !hidden && w.owner != 0 && w.owner == m.main
            &&& hidden && !(exists|k: int| 0 <= k < m.dialogs.len() && (#[trigger] m.dialogs[k]).root == w.owner) ==> what
                == (Create::Owned { extra: false }) && n.owned.contains(w.hwnd)
            &&& forall|k: int|
                hidden && 0 <= k < m.dialogs.len() && (#[trigger] m.dialogs[k]).root == w.owner ==> {
                    let old = m.dialogs[k].dialog;
                    let free = old == 0 || old == w.hwnd || !d.windows@.contains(old);
                    &&& what == (if free { Create::Dialog } else { Create::Owned { extra: true } })
                    &&& free ==> n.dialogs.len() == m.dialogs.len() && n.dialogs[k].root == w.owner && n.dialogs[k].dialog == w.hwnd
                    &&& !free ==> n.dialogs == m.dialogs && n.owned.contains(w.hwnd)
                }
            &&& what is TopLevel ==> n.log.last().kind is TopLevelCreated
            &&& what is StaOwned ==> n.log.last().kind is StaOwnedCreated
            &&& what is Dialog ==> n.log.last().kind is DialogCreated
            &&& what is TopLevel || what is StaOwned || what is Dialog ==> {
                &&& n.log.last().window.hwnd == w.hwnd
                &&& n.log.last().time_ms == time_ms
                &&& n.log.last().extra is Created && n.log.last().extra->owner == w.owner
            }
            &&& n.stats == m.stats && n.hidden == m.hidden && n.main == m.main
        }),
{
    let (n, what) = m.creating(d, w, time_ms);
    let hidden = w.owner != 0 && m.hides(d, w.owner);
    slot_found(m.dialogs, w.owner, 0);
    if hidden {
        assert(with(m.owned, w.hwnd).contains(w.hwnd)) by {
            if !m.owned.contains(w.hwnd) {
                assert(m.owned.push(w.hwnd)[m.owned.len() as int] == w.hwnd);
            }
        }
        if slot_of(m.dialogs, w.owner, 0) is Some {
            assert(m.dialogs[slot_of(m.dialogs, w.owner, 0)->0].root == w.owner);
        }
        assert forall|k: int| 0 <= k < m.dialogs.len() && (#[trigger] m.dialogs[k]).root == w.owner implies slot_of(m.dialogs, w.owner, 0) == Some(k) by {
            the_slot_is_found(m.dialogs, w.owner, 0, k);
        }
    }
}

proof fn the_slot_is_found(dialogs: Seq<DialogRoot>, root: isize, i: int, k: int)
    requires
        0 <= i <= k < dialogs.len(),
        dialogs[k].root == root,
        forall|a: int, b: int| 0 <= a < b < dialogs.len() ==> dialogs[a].root != dialogs[b].root,
    ensures
        slot_of(dialogs, root, i) == Some(k),
    decreases k - i,
{
    if i < k {
        assert(dialogs[i].root != dialogs[k].root);
        the_slot_is_found(dialogs, root, i + 1, k);
    }
}

/// Styles are logged in hexadecimal, behind `0x`, and can be read back.
pub proof fn a_logged_style_reads_back(value: u32)
    ensures
        style(value).len() >= 3,
        style(value).take(2) == seq!['0', 'x'],
        hex_number(style(value).skip(2)) == value,
{
    reveal_strlit("0x");
    hex_short_reads_back(value as nat);
    assert(style(value).take(2) =~= seq!['0', 'x']);
    assert(style(value).skip(2) =~= hex_short(value as nat));
}

/// What is logged of a window that is created is what it was created with.
pub proof fn a_creation_is_logged_as_it_is(w: Creation)
    ensures
        w.detail() is Created,
        w.detail()->owner == w.owner,
        hex_number(w.detail()->style.skip(2)) == w.style,
        hex_number(w.detail()->ex_style.skip(2)) == w.ex_style,
{
    a_logged_style_reads_back(w.style);
    a_logged_style_reads_back(w.ex_style);
}

/// A window that was cloaked while it was created is counted as cloaked, one that could not be as failed;
/// one more than the one dialog is counted besides, and told apart in the log.
pub proof fn cloaking_at_creation_is_counted(m: Model, d: Desktop, w: Creation, extra: bool, ok: bool, time_ms: u64)
    requires
        m.stats.cloaked_at_create < u64::MAX,
        m.stats.cloak_at_create_failed < u64::MAX,
        m.stats.extra_dialogs_cloaked < u64::MAX,
    ensures
        ({
            let n = m.cloaked_at_create(d, w, extra, ok, time_ms);
            &&& n.stats.cloaked_at_create - m.stats.cloaked_at_create == (if ok { 1int } else { 0 })
            &&& n.stats.cloak_at_create_failed - m.stats.cloak_at_create_failed == (if ok { 0int } else { 1 })
            &&& n.stats.extra_dialogs_cloaked - m.stats.extra_dialogs_cloaked == (if extra { 1int } else { 0 })
            &&& n.stats.activations_blocked == m.stats.activations_blocked && n.stats.cloaked_on_show == m.stats.cloaked_on_show
                && n.stats.foreground_restored == m.stats.foreground_restored
            &&& n.log.last().window.hwnd == w.hwnd && n.log.last().time_ms == time_ms && n.log.last().extra == w.detail()
            &&& extra ==> n.log.last().kind is ExtraDialogCloaked
            &&& !extra ==> n.log.last().kind is OwnedCreated
            &&& n.hidden == m.hidden && n.owned == m.owned && n.dialogs == m.dialogs
        }),
{
}

/// A window that is shown is cloaked exactly where it is hidden, is no admitted dialog and is not cloaked
/// yet; what the main window owns is told apart, and what nobody owns is nobody's concern.
pub proof fn a_shown_window_is_cloaked_where_it_is_hidden(m: Model, d: Desktop, hwnd: isize, cloaked: bool, time_ms: u64)
    requires
        m.valid(),
    ensures
        ({
            let (n, what) = m.showing(d, hwnd, cloaked, time_ms);
            let owned_by_main = d.owners@.contains_key(hwnd) && d.owners@[hwnd] == m.main && m.main != 0;
            &&& what is Cloak <==> m.hides(d, hwnd) && !m.allows(d, hwnd) && !cloaked
            &&& what is Dialog <==> m.allows(d, hwnd)
            &&& what is StaOwned <==> !m.allows(d, hwnd) && !m.hides(d, hwnd) && owned_by_main
            &&& what is Dialog ==> n.log.last().kind is DialogShown && n.log.last().window.hwnd == hwnd
            &&& what is StaOwned ==> n.log.last().kind is StaOwnedShown && n.log.last().window.hwnd == hwnd
            &&& m.hides(d, hwnd) && !m.allows(d, hwnd) ==> n.hidden.contains(hwnd) || n.owned.contains(hwnd)
            &&& m.hidden.contains(hwnd) && m.hides(d, hwnd) ==> n.owned == m.owned
            &&& !m.hides(d, hwnd) && !m.allows(d, hwnd) && !d.owners@.contains_key(hwnd) && !m.owned.contains(hwnd) ==> n == m
            &&& !m.hides(d, hwnd) && !m.allows(d, hwnd) && d.owners@.contains_key(hwnd) && d.owners@[hwnd] != 0 && !owned_by_main
                ==> n.log.last().kind is OwnedShown && n.log.last().window.hwnd == hwnd
            &&& n.hidden == m.hidden && n.stats == m.stats && n.dialogs == m.dialogs
        }),
{
    if m.hides(d, hwnd) && !m.allows(d, hwnd) && !m.owned.contains(hwnd) {
        assert(m.owned.push(hwnd)[m.owned.len() as int] == hwnd);
    }
}

/// A window that was cloaked as it was shown is counted and logged.
pub proof fn cloaking_on_show_is_counted(m: Model, d: Desktop, hwnd: isize, time_ms: u64)
    requires
        m.stats.cloaked_on_show < u64::MAX,
    ensures
        ({
            let n = m.cloaked_on_show(d, hwnd, time_ms);
            &&& n.stats == (Stats { cloaked_on_show: (m.stats.cloaked_on_show + 1) as u64, ..m.stats })
            &&& n.log.last().kind is CloakedOnShow && n.log.last().window.hwnd == hwnd && n.log.last().time_ms == time_ms
            &&& n.hidden == m.hidden && n.owned == m.owned
        }),
{
}

/// A window that was taken for one of a hidden root, and is not hidden, is forgotten as soon as it is looked
/// at, and the log says so.
pub proof fn a_freed_window_is_forgotten(m: Model, d: Desktop, hwnd: isize, time_ms: u64, other: isize)
    requires
        m.valid(),
    ensures
        ({
            let n = m.looked(d, hwnd, time_ms);
            &&& hwnd != 0 && !m.hides(d, hwnd) ==> !n.owned.contains(hwnd)
            &&& m.hides(d, hwnd) ==> n == m
            &&& other != hwnd ==> (n.owned.contains(other) <==> m.owned.contains(other))
            &&& n.owned.contains(hwnd) != m.owned.contains(hwnd) ==> n.log.last().kind is OwnedForgotten && n.log.last().window.hwnd == hwnd
                && n.log.last().time_ms == time_ms
            &&& n.stats == m.stats && n.hidden == m.hidden && n.dialogs == m.dialogs
        }),
{
    without_leaves_the_others(m.owned, hwnd, hwnd);
    without_leaves_the_others(m.owned, hwnd, other);
}

proof fn chained_by_their_owners(d: Desktop, list: Seq<isize>, root: isize, i: int, hwnd: isize)
    requires
        0 <= i <= list.len(),
    ensures
        chained(d, list, root, i).0.contains(hwnd) <==> reaches(d, seq![root], hwnd, 8) && exists|k: int| i <= k < list.len() && #[trigger] list[k] == hwnd,
        chained(d, list, root, i).1.contains(hwnd) <==> !reaches(d, seq![root], hwnd, 8) && exists|k: int| i <= k < list.len() && #[trigger] list[k] == hwnd,
    decreases list.len() - i,
{
    if i < list.len() {
        chained_by_their_owners(d, list, root, i + 1, hwnd);
        let rest = chained(d, list, root, i + 1);
        let all = chained(d, list, root, i);
        let here = reaches(d, seq![root], list[i], 8);
        if here {
            assert(all.0 =~= seq![list[i]] + rest.0);
            front_of_a_list(list[i], rest.0, hwnd);
        } else {
            assert(all.1 =~= seq![list[i]] + rest.1);
            front_of_a_list(list[i], rest.1, hwnd);
        }
    }
}

proof fn front_of_a_list(first: isize, rest: Seq<isize>, x: isize)
    ensures
        (seq![first] + rest).contains(x) <==> x == first || rest.contains(x),
{
    let all = seq![first] + rest;
    assert(all[0] == first);
    if rest.contains(x) {
        let k = choose|k: int| 0 <= k < rest.len() && rest[k] == x;
        assert(all[k + 1] == x);
    }
    if all.contains(x) {
        let k = choose|k: int| 0 <= k < all.len() && all[k] == x;
        if k > 0 {
            assert(rest[k - 1] == x);
        }
    }
}

proof fn existing_are_the_existing(d: Desktop, list: Seq<isize>, i: int, hwnd: isize)
    requires
        0 <= i <= list.len(),
    ensures
        existing(d, list, i).contains(hwnd) <==> hwnd != 0 && d.windows@.contains(hwnd) && exists|k: int|
            i <= k < list.len() && #[trigger] list[k] == hwnd,
    decreases list.len() - i,
{
    if i < list.len() {
        existing_are_the_existing(d, list, i + 1, hwnd);
        if exists_in(d, list[i]) {
            assert(existing(d, list, i) =~= seq![list[i]] + existing(d, list, i + 1));
            front_of_a_list(list[i], existing(d, list, i + 1), hwnd);
        }
    }
}

/// Among the windows of hidden roots, those of one root are the ones from which a chain of at most eight
/// owners leads to it; the others are those of the other roots.
pub proof fn the_windows_of_a_root_are_told_apart(d: Desktop, list: Seq<isize>, root: isize, hwnd: isize)
    ensures
        chained(d, list, root, 0).0.contains(hwnd) <==> list.contains(hwnd) && exists|c: Seq<isize>|
            #[trigger] owner_chain(d, c) && c.len() <= 8 && c[0] == hwnd && c.last() == root,
        chained(d, list, root, 0).1.contains(hwnd) <==> list.contains(hwnd) && !chained(d, list, root, 0).0.contains(hwnd),
        existing(d, list, 0).contains(hwnd) <==> list.contains(hwnd) && hwnd != 0 && d.windows@.contains(hwnd),
{
    chained_by_their_owners(d, list, root, 0, hwnd);
    existing_are_the_existing(d, list, 0, hwnd);
    let one = seq![root];
    assert(one[0] == root);
    if reaches(d, one, hwnd, 8) {
        let c = what_is_reached_has_a_chain(d, one, hwnd, 8);
        assert(owner_chain(d, c) && c.last() == root);
    }
    assert forall|c: Seq<isize>| #[trigger] owner_chain(d, c) && c.len() <= 8 && c[0] == hwnd && c.last() == root implies reaches(d, one, hwnd, 8) by {
        assert(one.contains(c.last()));
        a_chain_reaches(d, one, c, 8);
    }
}

/// Hiding a window lists it, once, and no other.
pub proof fn a_listed_window_is_listed_once(s: Seq<isize>, x: isize, y: isize)
    requires
        s.no_duplicates(),
    ensures
        with(s, x).contains(y) <==> s.contains(y) || y == x,
        with(s, x).no_duplicates(),
        s.is_prefix_of(with(s, x)),
{
    if !s.contains(x) {
        let w = s.push(x);
        assert(w[s.len() as int] == x);
        if s.contains(y) {
            let k = choose|k: int| 0 <= k < s.len() && s[k] == y;
            assert(w[k] == y);
        }
    }
}

/// A window that nothing is known of is described with its owner alone; one that is known as it looks.
pub proof fn a_window_is_described_as_it_looks(d: Desktop, hwnd: isize)
    ensures
        look(d, hwnd).hwnd == hwnd,
        d.looks@.contains_key(hwnd) ==> {
            let w = d.looks@[hwnd];
            &&& look(d, hwnd).class == w.class@ && look(d, hwnd).title == w.title@
            &&& look(d, hwnd).style == w.style@ && look(d, hwnd).ex_style == w.ex_style@
            &&& look(d, hwnd).owner == w.owner && look(d, hwnd).visible == w.visible && look(d, hwnd).cloaked == w.cloaked
            &&& look(d, hwnd).rect == w.rect@
        },
        !d.looks@.contains_key(hwnd) ==> {
            &&& look(d, hwnd).class.len() == 0 && look(d, hwnd).title.len() == 0
            &&& !look(d, hwnd).visible && !look(d, hwnd).cloaked
            &&& d.owners@.contains_key(hwnd) ==> look(d, hwnd).owner == d.owners@[hwnd]
            &&& !d.owners@.contains_key(hwnd) ==> look(d, hwnd).owner == 0
            &&& look(d, hwnd).rect == seq![0i32, 0i32, 0i32, 0i32]
        },
{
}

/// The names under which the events are logged.
pub proof fn the_names_of_the_events()
    ensures
        Kind::DialogsAllowed.label() == "dialogs-allowed"@,
        Kind::DialogsRefused.label() == "dialogs-refused"@,
        Kind::OwnedForgotten.label() == "owned-forgotten"@,
        Kind::ActivateBlocked.label() == "activate-blocked"@,
        Kind::DialogCreated.label() == "dialog-created"@,
        Kind::ExtraDialogCloaked.label() == "extra-dialog-cloaked"@,
        Kind::OwnedCreated.label() == "owned-created"@,
        Kind::StaOwnedCreated.label() == "sta-owned-created"@,
        Kind::TopLevelCreated.label() == "top-level-created"@,
        Kind::DialogShown.label() == "dialog-shown"@,
        Kind::CloakedOnShow.label() == "cloaked-on-show"@,
        Kind::StaOwnedShown.label() == "sta-owned-shown"@,
        Kind::OwnedShown.label() == "owned-shown"@,
        Kind::ForegroundRestored.label() == "foreground-restored"@,
        Kind::Hidden.label() == "hidden"@,
        Kind::Shown.label() == "shown"@,
{
}

} // verus!
