//! The crash-loop guard.
//!
//! A launch marker is written before the window is shown and cleared on a clean shutdown. A marker that
//! is still there at startup means that the previous run ended abnormally. If it ended within
//! [`CRASH_WINDOW_MS`] of its launch it crashed while starting, and the counter goes up; two of those in
//! a row mean safe mode, and the counter is cleared. A missing, unreadable or corrupt marker means
//! "first run".
use crate::json::{
    all_json, ascending, comes_before, escapes, holds, is_json, json_layer, json_quoted, member_from, members_spelled, object_spelled, object_text, parse,
    reads_back, Json, Scalar, MAX_DEPTH,
};
use crate::text::{copy_text, decimal, signed_decimal};
use vstd::prelude::*;

verus! {

/// A run that ends within this long after launching counts as "crashed while starting".
pub const CRASH_WINDOW_MS: i64 = 60000;

/// Startup crashes in a row before safe mode.
pub const CRASHES_FOR_SAFE_MODE: u32 = 2;

/// `(safe_mode, crashes_to_record)` after a run that launched at `launched_at` with `crashes` startup
/// crashes before it and did not shut down cleanly, for a launch at `now`.
pub open spec fn decision(previous: Option<(i64, u32)>, now: i64) -> (bool, u32) {
    match previous {
        None => (false, 0),
        Some((launched_at, crashes)) => if now - launched_at > CRASH_WINDOW_MS {
            (false, 0)
        } else if crashes + 1 >= CRASHES_FOR_SAFE_MODE {
            (true, 0)
        } else {
            (false, (crashes + 1) as u32)
        },
    }
}

/// Decides the new state from the marker of the previous run.
///
/// `previous`: `(launched_at, crashes)` of a marker that was still there, i.e. of a run that did not
/// shut down cleanly. Returns `(safe_mode, crashes_to_record)`.
pub fn decide(previous: Option<(i64, u32)>, now: i64) -> (r: (bool, u32))
    ensures
        r == decision(previous, now),
{
    match previous {
        None => (false, 0),
        Some((launched_at, crashes)) => {
            // A run that lived long enough was not a startup crash.
            if now as i128 - launched_at as i128 > CRASH_WINDOW_MS as i128 {
                return (false, 0);
            }
            if crashes >= CRASHES_FOR_SAFE_MODE - 1 {
                (true, 0)
            } else {
                (false, crashes + 1)
            }
        },
    }
}

/// What a marker says: when the run launched, and the startup crashes before it.
pub open spec fn marker_of(value: Json) -> Option<(i64, u32)> {
    match value.member("launchedAt"@) {
        Some(at) => match at.signed_number() {
            Some(launched_at) => Some(
                (
                    launched_at,
                    match value.member("crashes"@) {
                        Some(n) => match n.unsigned_number() {
                            Some(crashes) => (crashes % 0x1_0000_0000) as u32,
                            None => 0,
                        },
                        None => 0,
                    },
                ),
            ),
            None => None,
        },
        None => None,
    }
}

/// What a marker says.
pub fn read_marker(value: &Json) -> (r: Option<(i64, u32)>)
    ensures
        r == marker_of(*value),
{
    let launched_at: i64 = match value.get("launchedAt") {
        Some(at) => match at.as_i64() {
            Some(n) => n,
            None => {
                return None;
            },
        },
        None => {
            return None;
        },
    };
    let crashes: u64 = match value.get("crashes") {
        Some(n) => match n.as_u64() {
            Some(n) => n % 0x1_0000_0000,
            None => 0,
        },
        None => 0,
    };
    Some((launched_at, crashes as u32))
}

/// What a marker file says, given its text.
pub open spec fn is_marker_of(text: Option<Seq<char>>, r: Option<(i64, u32)>) -> bool {
    match text {
        None => r is None,
        Some(t) => if !is_json(t, MAX_DEPTH as nat) {
            r is None
        } else {
            exists|value: Json| #[trigger] holds(value, t, MAX_DEPTH as nat) && r == marker_of(value)
        },
    }
}

/// What a marker file says: nothing where it is missing or cannot be read.
pub fn marker_in(text: Option<&str>) -> (r: Option<(i64, u32)>)
    ensures
        match text {
            Some(t) => is_marker_of(Some(t@), r),
            None => is_marker_of(None, r),
        },
{
    match text {
        None => None,
        Some(t) => match parse(t) {
            None => None,
            Some(value) => {
                let r = read_marker(&value);
                proof {
                    assert(holds(value, t@, MAX_DEPTH as nat));
                }
                r
            },
        },
    }
}

/// The text of a marker.
pub open spec fn marker_spelled(launched_at: i64, crashes: u32, version: Seq<char>) -> Seq<char> {
    "{\"crashes\":"@ + decimal(crashes as nat) + ",\"launchedAt\":"@ + signed_decimal(launched_at as int) + ",\"version\":"@ + json_quoted(
        version,
    ) + "}"@
}

/// The text holds a marker that says this.
pub open spec fn says(text: Seq<char>, launched_at: i64, crashes: u32) -> bool {
    is_json(text, MAX_DEPTH as nat) && forall|value: Json|
        #[trigger] holds(value, text, MAX_DEPTH as nat) ==> marker_of(value) == Some((launched_at, crashes))
}

/// The text of a marker: it is read back as it was written.
pub fn marker_text(launched_at: i64, crashes: u32, version: &str) -> (r: String)
    ensures
        r@ == marker_spelled(launched_at, crashes, version@),
        says(r@, launched_at, crashes),
{
    let members: Vec<(String, Scalar)> = vec![
        (copy_text("crashes"), Scalar::Unsigned(crashes as u64)),
        (copy_text("launchedAt"), Scalar::Signed(launched_at)),
        (copy_text("version"), Scalar::Text(copy_text(version))),
    ];
    let ghost all = members@;
    proof {
        reveal_strlit("crashes");
        reveal_strlit("launchedAt");
        reveal_strlit("version");
        assert(comes_before(all[0].0@, all[1].0@));
        assert(comes_before(all[1].0@, all[2].0@));
        assert(ascending(all));
    }
    let text = object_text(members);
    proof {
        a_marker_is_spelled(all, launched_at, crashes, version@);
        a_marker_is_read(text@, all, launched_at, crashes);
    }
    text
}

/// The members of a marker.
spec fn is_marker(members: Seq<(String, Scalar)>, launched_at: i64, crashes: u32, version: Seq<char>) -> bool {
    &&& members.len() == 3
    &&& members[0].0@ == "crashes"@ && members[0].1 == Scalar::Unsigned(crashes as u64)
    &&& members[1].0@ == "launchedAt"@ && members[1].1 == Scalar::Signed(launched_at)
    &&& members[2].0@ == "version"@ && members[2].1 is Text && members[2].1->Text_0@ == version
}

proof fn a_marker_is_spelled(members: Seq<(String, Scalar)>, launched_at: i64, crashes: u32, version: Seq<char>)
    requires
        is_marker(members, launched_at, crashes, version),
    ensures
        object_spelled(members) == marker_spelled(launched_at, crashes, version),
{
    let two = members.drop_last();
    let one = two.drop_last();
    assert(one.drop_last() =~= Seq::empty());
    assert(members_spelled(one.drop_last()) =~= Seq::empty());
    assert(members_spelled(one) =~= json_quoted("crashes"@) + ":"@ + decimal(crashes as nat));
    assert(members_spelled(two) == members_spelled(one) + ","@ + json_quoted("launchedAt"@) + ":"@ + signed_decimal(launched_at as int));
    assert(members_spelled(members) == members_spelled(two) + ","@ + json_quoted("version"@) + ":"@ + json_quoted(version));
    plain_names();
    reveal_strlit("{");
    reveal_strlit("}");
    reveal_strlit(":");
    reveal_strlit(",");
    reveal_strlit("{\"crashes\":");
    reveal_strlit(",\"launchedAt\":");
    reveal_strlit(",\"version\":");
    reveal_strlit("\"crashes\"");
    reveal_strlit("\"launchedAt\"");
    reveal_strlit("\"version\"");
    assert("{\"crashes\":"@ =~= "{"@ + "\"crashes\""@ + ":"@);
    assert(",\"launchedAt\":"@ =~= ","@ + "\"launchedAt\""@ + ":"@);
    assert(",\"version\":"@ =~= ","@ + "\"version\""@ + ":"@);
    assert(object_spelled(members) =~= marker_spelled(launched_at, crashes, version));
}

/// A text without anything to escape stands for itself.
proof fn plain(s: Seq<char>)
    requires
        forall|i: int| 0 <= i < s.len() ==> #[trigger] s[i] != '"' && s[i] != '\\' && s[i] as u32 >= 32,
    ensures
        escapes(s) == s,
    decreases s.len(),
{
    if s.len() > 0 {
        plain(s.drop_last());
        assert(s =~= s.drop_last() + seq![s.last()]);
    }
}

proof fn plain_names()
    ensures
        json_quoted("crashes"@) == "\"crashes\""@,
        json_quoted("launchedAt"@) == "\"launchedAt\""@,
        json_quoted("version"@) == "\"version\""@,
{
    reveal_strlit("crashes");
    reveal_strlit("launchedAt");
    reveal_strlit("version");
    reveal_strlit("\"crashes\"");
    reveal_strlit("\"launchedAt\"");
    reveal_strlit("\"version\"");
    plain("crashes"@);
    plain("launchedAt"@);
    plain("version"@);
    assert(json_quoted("crashes"@) =~= "\"crashes\""@);
    assert(json_quoted("launchedAt"@) =~= "\"launchedAt\""@);
    assert(json_quoted("version"@) =~= "\"version\""@);
}

proof fn a_marker_is_read(text: Seq<char>, members: Seq<(String, Scalar)>, launched_at: i64, crashes: u32)
    requires
        is_marker(members, launched_at, crashes, members[2].1->Text_0@),
        reads_back(text, members),
    ensures
        says(text, launched_at, crashes),
{
    let parts = json_layer(text)->0->Object_0;
    let values = Seq::new(parts.len(), |i: int| parts[i].1);
    let depth = (MAX_DEPTH - 1) as nat;
    assert(is_json(parts[0].1, depth) && is_json(parts[1].1, depth) && is_json(parts[2].1, depth));
    assert(all_json(values, 3, depth));
    assert(all_json(values, 2, depth));
    assert(all_json(values, 1, depth));
    assert(all_json(values, 0, depth));
    reveal_strlit("crashes");
    reveal_strlit("launchedAt");
    assert("crashes"@.len() != "launchedAt"@.len());
    assert forall|value: Json| #[trigger] holds(value, text, MAX_DEPTH as nat) implies marker_of(value) == Some((launched_at, crashes)) by {
        match value {
            Json::Object(v) => {
                assert(v@[0].0@ == parts[0].0 && holds(v@[0].1, parts[0].1, depth));
                assert(v@[1].0@ == parts[1].0 && holds(v@[1].1, parts[1].1, depth));
                assert(member_from(v@, "crashes"@, 0) == Some(v@[0].1));
                assert(member_from(v@, "launchedAt"@, 1) == Some(v@[1].1));
                assert(member_from(v@, "launchedAt"@, 0) == Some(v@[1].1));
            },
            _ => {},
        }
    }
}

/// The guard of this run.
#[derive(Debug, Clone, Copy, PartialEq, Eq, Structural)]
pub struct Guard {
    pub safe_mode: bool,
    pub crashes: u32,
    /// The marker was cleared.
    pub cleared: bool,
}

/// Reads the previous run's marker and says what to start with, and the marker of this run. `path`:
/// there is a place for the marker at all.
pub fn startup(path: bool, previous: Option<&str>, now: i64, version: &str) -> (r: (Guard, Option<String>))
    ensures
        !path ==> r.0 == (Guard { safe_mode: false, crashes: 0, cleared: false }) && r.1 is None,
        path ==> started_with(
            match previous {
                Some(t) => Some(t@),
                None => None,
            },
            now,
            r.0,
        ),
        path ==> r.1 is Some && r.1->0@ == marker_spelled(now, r.0.crashes, version@),
        path ==> says(r.1->0@, now, r.0.crashes),
{
    if !path {
        return (Guard { safe_mode: false, crashes: 0, cleared: false }, None);
    }
    let marker = marker_in(previous);
    let decided = decide(marker, now);
    let text = marker_text(now, decided.1, version);
    let guard = Guard { safe_mode: decided.0, crashes: decided.1, cleared: false };
    (guard, Some(text))
}

/// The guard follows from what the previous marker says.
pub open spec fn started_with(previous: Option<Seq<char>>, now: i64, guard: Guard) -> bool {
    exists|marker: Option<(i64, u32)>| #[trigger] is_marker_of(previous, marker) && decision(marker, now) == (
        guard.safe_mode,
        guard.crashes,
    ) && !guard.cleared
}

impl Guard {
    /// A clean shutdown: whether the marker has to be removed. (Once.)
    pub fn on_clean_shutdown(&mut self) -> (r: bool)
        ensures
            r == !old(self).cleared,
            *final(self) == (Guard { cleared: true, ..*old(self) }),
    {
        let first = !self.cleared;
        self.cleared = true;
        first
    }
}

/// A launch that finds the marker of the launch before decides by what that one wrote.
pub proof fn a_marker_is_read_back(text: Seq<char>, launched_at: i64, crashes: u32, now: i64, guard: Guard)
    requires
        says(text, launched_at, crashes),
        started_with(Some(text), now, guard),
    ensures
        decision(Some((launched_at, crashes)), now) == (guard.safe_mode, guard.crashes),
{
}

/// A marker that is missing or no JSON counts as none: a first run, never safe mode.
pub proof fn a_corrupt_marker_is_a_first_run(text: Option<Seq<char>>, now: i64, guard: Guard)
    requires
        text is Some ==> !is_json(text->0, MAX_DEPTH as nat),
        started_with(text, now, guard),
    ensures
        !guard.safe_mode,
        guard.crashes == 0,
{
}

/// Two startup crashes in a row mean safe mode, and the launch after that starts normally again: runs
/// that launch at `t0`, `t1`, `t2` and `t3` and each die without a clean shutdown, none later than the
/// window after its launch.
pub proof fn two_crashes_in_a_row(t0: i64, t1: i64, t2: i64, t3: i64)
    requires
        t1 - t0 <= CRASH_WINDOW_MS,
        t2 - t1 <= CRASH_WINDOW_MS,
        t3 - t2 <= CRASH_WINDOW_MS,
    ensures
        ({
            let first = decision(None, t0);
            let second = decision(Some((t0, first.1)), t1);
            let third = decision(Some((t1, second.1)), t2);
            let fourth = decision(Some((t2, third.1)), t3);
            !first.0 && !second.0 && third.0 && !fourth.0
        }),
{
}

/// A run that shut down cleanly or lived longer than the window starts the count over, whatever came
/// before it.
pub proof fn a_long_run_ends_the_loop(previous: Option<(i64, u32)>, now: i64)
    requires
        match previous {
            Some((launched_at, crashes)) => now - launched_at > CRASH_WINDOW_MS,
            None => true,
        },
    ensures
        decision(previous, now) == (false, 0u32),
{
}

/// What a launch decides: nothing where the run before ended cleanly or lived for more than a minute; the
/// first startup crash is counted, and one that follows another means safe mode and a fresh count.
pub proof fn the_second_crash_means_safe_mode(launched_at: i64, crashes: u32, now: i64)
    ensures
        decision(None, now) == (false, 0u32),
        now - launched_at > 60_000 ==> decision(Some((launched_at, crashes)), now) == (false, 0u32),
        now - launched_at <= 60_000 && crashes == 0 ==> decision(Some((launched_at, crashes)), now) == (false, 1u32),
        now - launched_at <= 60_000 && crashes >= 1 ==> decision(Some((launched_at, crashes)), now) == (true, 0u32),
{
}

/// A marker says when the run launched and how many startup crashes came before it, by these two names; a
/// marker without a launch says nothing, and one without a count counts none.
pub proof fn a_marker_has_two_names(value: Json, launched_at: i64, crashes: u64)
    requires
        value.member("launchedAt"@) is Some,
        value.member("launchedAt"@)->0.signed_number() == Some(launched_at),
        crashes < 0x1_0000_0000,
    ensures
        value.member("crashes"@) is None ==> marker_of(value) == Some((launched_at, 0u32)),
        value.member("crashes"@) is Some && value.member("crashes"@)->0.unsigned_number() == Some(crashes) ==> marker_of(value) == Some(
            (launched_at, crashes as u32),
        ),
        forall|other: Json| #[trigger] other.member("launchedAt"@) is None ==> marker_of(other) is None,
{
}

/// The text of a marker is an object with its three names in order.
pub proof fn a_marker_is_an_object(launched_at: i64, crashes: u32, version: Seq<char>)
    ensures
        marker_spelled(launched_at, crashes, version) == "{\"crashes\":"@ + decimal(crashes as nat) + ",\"launchedAt\":"@ + signed_decimal(
            launched_at as int,
        ) + ",\"version\":"@ + json_quoted(version) + "}"@,
{
}

} // verus!
