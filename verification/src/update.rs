//! In-app updates.
//!
//! Check: the manifest of the latest release is fetched. Download: the archive that it names is
//! streamed to the staging directory and hashed as it arrives; a size or a hash that disagrees with the
//! manifest deletes the file and fails the update. Unpack: into the staging directory. Apply: on
//! request the staged build is started as a helper that replaces the installed files.
//!
//! [`Update`] is the state; its functions say what has to be done ([`Effect`]). The URL request, the
//! file and the hash of a request in flight are held outside, under the request's number.
use crate::counter::{bump, next_number};
use crate::text::{
    chars_of, copy_text, decimal, decimal_text, decimal_value, has_prefix, join2, join3, opt_view, same_text, signed_decimal, signed_text, text_views,
};
use vstd::prelude::*;

verus! {

/// The first check runs this long after the browser is up.
pub const CHECK_DELAY_MS: i64 = 8000;

/// A manifest that has not arrived by then is a failed check.
pub const MANIFEST_TIMEOUT_MS: i64 = 20000;

/// A download that has not finished by then is a failed download.
pub const DOWNLOAD_TIMEOUT_MS: i64 = 1800000;

/// Progress is reported at most this often.
pub const PROGRESS_EVERY_MS: i64 = 400;

/// The flag that turns a staged build into the helper that replaces the installed one.
pub const APPLY_FLAG: &'static str = "--sta-apply-update";

/// How often a file that cannot be replaced is tried.
pub const COPY_ATTEMPTS: u64 = 10;

/// How deep the payload of an archive is looked for.
pub const PAYLOAD_LEVELS: usize = 3;

/// What a request in flight is for.
#[derive(Debug, Clone, Copy, PartialEq, Eq, Structural)]
pub enum Kind {
    Manifest,
    Archive,
}

/// The archive of a release for this platform.
pub struct Asset {
    pub url: String,
    pub sha256: String,
    pub size: u64,
}

/// A release as its manifest describes it.
pub struct Release {
    pub version: String,
    pub notes: String,
    /// It is newer than this build.
    pub newer: bool,
    pub asset: Option<Asset>,
}

/// A request in flight.
pub struct Pending {
    pub id: u64,
    pub kind: Kind,
    /// The URL request was started.
    pub requested: bool,
    /// The manifest so far; an archive never goes through memory.
    pub body: Vec<u8>,
    pub received: u64,
    /// The size that is reported: what the transfer announces, else the release's.
    pub total: u64,
    /// The size of the archive that the release names (0: it names none).
    pub size: u64,
    pub version: String,
    pub expected_sha256: String,
    pub last_progress: i64,
}

/// Where the update stands.
pub enum Status {
    Checking,
    UpToDate { checked_at: i64 },
    Available { version: String, notes: String, size: u64 },
    Downloading { version: String, received: u64, total: u64 },
    Ready { version: String },
    Failed { message: String },
}

/// What has to be done.
pub enum Effect {
    /// Tell the user interface where the update stands.
    Report(Status),
    /// Start the URL request of request `id`.
    Request { id: u64, kind: Kind, url: String, timeout_ms: i64 },
    /// Let go of everything that belongs to request `id` (its URL request and its file).
    Abandon(u64),
    /// Let go of the URL request `id` in a task of its own.
    DropHandle(u64),
    /// Time request `id` out later.
    TimeOutLater { id: u64, kind: Kind, after_ms: i64 },
    /// Create the file of the archive of this version.
    OpenArchive { version: String },
    /// Close the file of request `id`.
    CloseFile(u64),
    /// Delete the archive of this version.
    RemoveArchive { version: String },
    /// Delete what was unpacked of the archive of this version.
    RemoveUnpacked { version: String },
    /// Read the manifest in a task of its own.
    ReadManifest { body: Vec<u8> },
    /// Check the archive against its hash in a task of its own.
    CheckArchive { id: u64, version: String, expected: String, received: u64 },
    /// Unpack the archive of this version.
    Unpack { version: String },
}

/// The updater.
pub struct Update {
    pub pending: Option<Pending>,
    pub next_id: u64,
    /// The release that the last check found, so that a download needs no second check.
    pub latest: Option<Release>,
    /// Where the update that is ready was unpacked.
    pub staged: Option<String>,
    /// The check at startup was posted.
    pub checked: bool,
}

// ------------------------------------------------------------------------------ status

/// A report of a failure.
pub open spec fn is_failure(e: Effect, message: Seq<char>) -> bool {
    match e {
        Effect::Report(Status::Failed { message: m }) => m@ == message,
        _ => false,
    }
}

/// What letting go of the request in flight takes.
pub open spec fn abandoned(pending: Option<Pending>) -> Seq<Effect> {
    match pending {
        Some(p) => seq![Effect::Abandon(p.id)],
        None => Seq::empty(),
    }
}

/// The updater failed: nothing is in flight any more, and the failure is reported after `first`.
pub open spec fn has_failed(before: Update, after: Update, first: Seq<Effect>, r: Seq<Effect>, message: Seq<char>) -> bool {
    let gone = first + abandoned(before.pending);
    &&& after == (Update { pending: None, ..before })
    &&& r.len() == gone.len() + 1
    &&& r.drop_last() == gone
    &&& is_failure(r.last(), message)
}

/// Nothing happened.
pub open spec fn nothing(before: Update, after: Update, r: Seq<Effect>) -> bool {
    after == before && r.len() == 0
}

/// Ends the request in flight and reports a failure.
pub fn fail(state: &mut Update, message: String, out: &mut Vec<Effect>)
    ensures
        has_failed(*old(state), *final(state), old(out)@, final(out)@, message@),
{
    match state.pending.take() {
        Some(p) => out.push(Effect::Abandon(p.id)),
        None => {},
    }
    out.push(Effect::Report(Status::Failed { message }));
    proof {
        assert(out@.drop_last() =~= old(out)@ + abandoned(old(state).pending));
    }
}

/// Whether this run may talk to the update server at all: never in a test run, and never when the check
/// is switched off. The arguments are the environment variables, where they are set.
pub open spec fn allowed_by(no_update_check: Option<Seq<char>>, e2e: Option<Seq<char>>) -> bool {
    !((no_update_check is Some && no_update_check->0 != "0"@) || (e2e is Some && e2e->0 == "1"@))
}

/// Whether this run may talk to the update server at all: never in a test run, and never when the check
/// is switched off. The arguments are the environment variables, where they are set.
pub fn updates_allowed(no_update_check: Option<&str>, e2e: Option<&str>) -> (r: bool)
    ensures
        r == allowed_by(opt_view(no_update_check), opt_view(e2e)),
        r == !((no_update_check is Some && no_update_check->0@ != "0"@) || (e2e is Some && e2e->0@ == "1"@)),
{
    match no_update_check {
        Some(v) => {
            if !same_text(v, "0") {
                return false;
            }
        },
        None => {},
    }
    match e2e {
        Some(v) => !same_text(v, "1"),
        None => true,
    }
}

impl Update {
    /// Before the first check.
    pub fn new() -> (r: Update)
        ensures
            r == (Update { pending: None, next_id: 1, latest: None, staged: None, checked: false }),
    {
        Update { pending: None, next_id: 1, latest: None, staged: None, checked: false }
    }

    /// Request `id` is the one in flight.
    pub open spec fn waits_for(self, id: u64) -> bool {
        self.pending is Some && self.pending->0.id == id
    }
}

// ------------------------------------------------------------------------------ check

/// Posts the first check: after how long, if at all. (Once.)
pub open spec fn startup_check(state: Update, allowed: bool) -> Option<i64> {
    if allowed && !state.checked { Some(CHECK_DELAY_MS) } else { None }
}

/// Posts the first check: after how long, if at all. (Once.)
pub fn check_after_startup(state: &mut Update, allowed: bool) -> (r: Option<i64>)
    ensures
        r == startup_check(*old(state), allowed),
        r == (if allowed && !old(state).checked { Some(CHECK_DELAY_MS) } else { None }),
        *final(state) == (if allowed { (Update { checked: true, ..*old(state) }) } else { *old(state) }),
{
    if !allowed {
        return None;
    }
    let again = state.checked;
    state.checked = true;
    if again { None } else { Some(CHECK_DELAY_MS) }
}

/// A request of this kind just began.
pub open spec fn is_fresh(p: Pending, id: u64, kind: Kind, version: Seq<char>, sha256: Seq<char>, total: u64, now: i64) -> bool {
    &&& p.id == id
    &&& p.kind == kind
    &&& !p.requested
    &&& p.body@.len() == 0
    &&& p.received == 0
    &&& p.total == total
    &&& p.size == total
    &&& p.version@ == version
    &&& p.expected_sha256@ == sha256
    &&& p.last_progress == now
}

/// Fetches the manifest. A check while anything is in flight or staged is ignored.
pub fn start_check(state: &mut Update, allowed: bool, manifest_url: &str) -> (r: Vec<Effect>)
    ensures
        if !allowed || old(state).pending is Some || old(state).staged is Some {
            nothing(*old(state), *final(state), r@)
        } else {
            &&& *final(state) == (Update { pending: final(state).pending, next_id: next_number(old(state).next_id), ..*old(state) })
            &&& final(state).pending is Some
            &&& is_fresh(final(state).pending->0, old(state).next_id, Kind::Manifest, ""@, ""@, 0, 0)
            &&& r@.len() == 2
            &&& r@[0] == Effect::Report(Status::Checking)
            &&& r@[1] is Request
            &&& r@[1]->Request_id == old(state).next_id
            &&& r@[1]->Request_kind == Kind::Manifest
            &&& r@[1]->url@ == manifest_url@
            &&& r@[1]->timeout_ms == MANIFEST_TIMEOUT_MS
        },
{
    let mut out: Vec<Effect> = Vec::new();
    if !allowed || state.pending.is_some() || state.staged.is_some() {
        return out;
    }
    let id: u64 = state.next_id;
    state.next_id = bump(id);
    proof {
        reveal_strlit("");
        assert(""@ =~= Seq::<char>::empty());
    }
    out.push(Effect::Report(Status::Checking));
    state.pending = Some(
        Pending {
            id,
            kind: Kind::Manifest,
            requested: false,
            body: Vec::new(),
            received: 0,
            total: 0,
            size: 0,
            version: String::new(),
            expected_sha256: String::new(),
            last_progress: 0,
        },
    );
    out.push(Effect::Request { id, kind: Kind::Manifest, url: copy_text(manifest_url), timeout_ms: MANIFEST_TIMEOUT_MS });
    out
}

/// A manifest arrived: decide what it means. `parsed` is what it says, or why it cannot be read.
pub fn on_manifest(state: &mut Update, parsed: Result<Release, String>, now: i64) -> (r: Vec<Effect>)
    ensures
        match parsed {
            Err(e) => has_failed(*old(state), *final(state), Seq::empty(), r@, e@),
            Ok(release) => if !release.newer {
                &&& *final(state) == (Update { latest: Some(release), ..*old(state) })
                &&& r@ == seq![Effect::Report(Status::UpToDate { checked_at: now })]
            } else {
                match release.asset {
                    None => {
                        &&& *final(state) == *old(state)
                        &&& r@ == seq![Effect::Report(Status::UpToDate { checked_at: now })]
                    },
                    Some(asset) => {
                        &&& *final(state) == (Update { latest: Some(release), ..*old(state) })
                        &&& r@ == seq![
                            Effect::Report(Status::Available { version: release.version, notes: release.notes, size: asset.size }),
                        ]
                    },
                }
            },
        },
{
    let mut out: Vec<Effect> = Vec::new();
    match parsed {
        Err(e) => {
            fail(state, e, &mut out);
        },
        Ok(release) => {
            if !release.newer {
                out.push(Effect::Report(Status::UpToDate { checked_at: now }));
                state.latest = Some(release);
            } else {
                let size: Option<u64> = match &release.asset {
                    Some(asset) => Some(asset.size),
                    None => None,
                };
                match size {
                    None => out.push(Effect::Report(Status::UpToDate { checked_at: now })),
                    Some(size) => {
                        out.push(
                            Effect::Report(Status::Available { version: release.version.clone(), notes: release.notes.clone(), size }),
                        );
                        state.latest = Some(release);
                    },
                }
            }
        },
    }
    out
}

// ------------------------------------------------------------------------------ download

/// Whether the file of an archive could be created.
pub enum Opened {
    Ready,
    /// The staging directory could not be created.
    NoDirectory(String),
    /// The file could not be created.
    NoFile { path: String, error: String },
}

/// The release that can be downloaded.
pub open spec fn downloadable(state: Update) -> Option<(Release, Asset)> {
    match state.latest {
        Some(release) => match release.asset {
            Some(asset) => Some((release, asset)),
            None => None,
        },
        None => None,
    }
}

/// Fetches the archive of the release that the last check found: first its file is created.
pub fn start_download(state: &mut Update, allowed: bool) -> (r: Vec<Effect>)
    ensures
        if !allowed || old(state).pending is Some {
            nothing(*old(state), *final(state), r@)
        } else {
            match downloadable(*old(state)) {
                None => has_failed(*old(state), *final(state), Seq::empty(), r@, "nothing to download: check for an update first"@),
                Some(found) => *final(state) == *old(state) && r@ == seq![(Effect::OpenArchive { version: found.0.version })],
            }
        },
{
    let mut out: Vec<Effect> = Vec::new();
    if !allowed || state.pending.is_some() {
        return out;
    }
    let version: Option<String> = match &state.latest {
        Some(release) => match &release.asset {
            Some(_) => Some(release.version.clone()),
            None => None,
        },
        None => None,
    };
    match version {
        None => fail(state, copy_text("nothing to download: check for an update first"), &mut out),
        Some(version) => out.push(Effect::OpenArchive { version }),
    }
    out
}

/// The file of the archive was created, or could not be: the download begins.
pub fn on_archive_opened(state: &mut Update, opened: Opened, now: i64) -> (r: Vec<Effect>)
    ensures
        match opened {
            Opened::NoDirectory(e) => has_failed(
                *old(state),
                *final(state),
                Seq::empty(),
                r@,
                "cannot create the staging directory: "@ + e@,
            ),
            Opened::NoFile { path, error } => has_failed(
                *old(state),
                *final(state),
                Seq::empty(),
                r@,
                "cannot write "@ + path@ + ": "@ + error@,
            ),
            Opened::Ready => match downloadable(*old(state)) {
                None => nothing(*old(state), *final(state), r@),
                Some(found) => {
                    &&& *final(state) == (Update {
                        pending: final(state).pending,
                        next_id: next_number(old(state).next_id),
                        ..*old(state)
                    })
                    &&& final(state).pending is Some
                    &&& is_fresh(
                        final(state).pending->0,
                        old(state).next_id,
                        Kind::Archive,
                        found.0.version@,
                        found.1.sha256@,
                        found.1.size,
                        now,
                    )
                    &&& r@ == seq![
                        Effect::Report(Status::Downloading { version: found.0.version, received: 0, total: found.1.size }),
                        (Effect::Request {
                            id: old(state).next_id,
                            kind: Kind::Archive,
                            url: found.1.url,
                            timeout_ms: DOWNLOAD_TIMEOUT_MS,
                        }),
                    ]
                },
            },
        },
{
    let mut out: Vec<Effect> = Vec::new();
    match opened {
        Opened::NoDirectory(e) => {
            fail(state, join2("cannot create the staging directory: ", e.as_str()), &mut out);
        },
        Opened::NoFile { path, error } => {
            let mut message = join3("cannot write ", path.as_str(), ": ");
            message.append(error.as_str());
            fail(state, message, &mut out);
        },
        Opened::Ready => {
            let found: Option<(String, String, String, u64)> = match &state.latest {
                Some(release) => match &release.asset {
                    Some(asset) => Some((release.version.clone(), asset.url.clone(), asset.sha256.clone(), asset.size)),
                    None => None,
                },
                None => None,
            };
            match found {
                None => {},
                Some((version, url, sha256, size)) => {
                    let id: u64 = state.next_id;
                    state.next_id = bump(id);
                    out.push(Effect::Report(Status::Downloading { version: version.clone(), received: 0, total: size }));
                    state.pending = Some(
                        Pending {
                            id,
                            kind: Kind::Archive,
                            requested: false,
                            body: Vec::new(),
                            received: 0,
                            total: size,
                            size,
                            version,
                            expected_sha256: sha256,
                            last_progress: now,
                        },
                    );
                    out.push(Effect::Request { id, kind: Kind::Archive, url, timeout_ms: DOWNLOAD_TIMEOUT_MS });
                },
            }
        },
    }
    out
}

/// What follows once the hash of an archive is known.
pub open spec fn archive_checked(
    before: Update,
    after: Update,
    r: Seq<Effect>,
    version: String,
    digest: Seq<char>,
    expected: Seq<char>,
    received: u64,
) -> bool {
    if digest == expected {
        after == before && r == seq![(Effect::Unpack { version })]
    } else {
        has_failed(
            before,
            after,
            seq![(Effect::RemoveArchive { version })],
            r,
            "the download of "@ + version@ + " does not match the release ("@ + decimal(received as nat) + " bytes, sha256 "@ + digest + ")"@,
        )
    }
}

/// The archive is complete: it is unpacked if its hash is the release's, and deleted if not.
pub fn on_archive(state: &mut Update, version: String, digest: &str, expected: &str, received: u64) -> (r: Vec<Effect>)
    ensures
        archive_checked(*old(state), *final(state), r@, version, digest@, expected@, received),
{
    let mut out: Vec<Effect> = Vec::new();
    if same_text(digest, expected) {
        out.push(Effect::Unpack { version });
    } else {
        let mut message = join3("the download of ", version.as_str(), " does not match the release (");
        let count = decimal_text(received);
        message.append(count.as_str());
        message.append(" bytes, sha256 ");
        message.append(digest);
        message.append(")");
        out.push(Effect::RemoveArchive { version });
        proof {
            assert(out@ =~= seq![(Effect::RemoveArchive { version })]);
        }
        fail(state, message, &mut out);
    }
    out
}

/// The archive was unpacked, and its payload lies in a directory; or that failed.
pub fn on_unpacked(state: &mut Update, version: String, unpacked: Result<String, String>) -> (r: Vec<Effect>)
    ensures
        match unpacked {
            Ok(root) => {
                &&& *final(state) == (Update { staged: Some(root), ..*old(state) })
                &&& r@ == seq![(Effect::RemoveArchive { version }), Effect::Report(Status::Ready { version })]
            },
            Err(e) => has_failed(
                *old(state),
                *final(state),
                seq![(Effect::RemoveUnpacked { version }), (Effect::RemoveArchive { version })],
                r@,
                "cannot unpack "@ + version@ + ": "@ + e@,
            ),
        },
{
    let mut out: Vec<Effect> = Vec::new();
    match unpacked {
        Ok(root) => {
            out.push(Effect::RemoveArchive { version: version.clone() });
            state.staged = Some(root);
            out.push(Effect::Report(Status::Ready { version }));
        },
        Err(e) => {
            let mut message = join3("cannot unpack ", version.as_str(), ": ");
            message.append(e.as_str());
            out.push(Effect::RemoveUnpacked { version: version.clone() });
            out.push(Effect::RemoveArchive { version });
            proof {
                assert(out@ =~= seq![(Effect::RemoveUnpacked { version }), (Effect::RemoveArchive { version })]);
            }
            fail(state, message, &mut out);
        },
    }
    out
}

/// The payload of an unpacked archive, where it was found; an archive without one is refused.
pub fn payload_or_error(root: Option<String>, exe: &str) -> (r: Result<String, String>)
    ensures
        match root {
            Some(p) => r == Result::<String, String>::Ok(p),
            None => r is Err && r->Err_0@ == "no "@ + exe@ + " in the archive"@,
        },
{
    match root {
        Some(p) => Ok(p),
        None => Err(join3("no ", exe, " in the archive")),
    }
}

// ------------------------------------------------------------------------------ requests

/// Whether the URL request of a request could be started.
#[derive(Debug, Clone, Copy, PartialEq, Eq, Structural)]
pub enum Started {
    Yes,
    /// No URL request could be created.
    NoRequest,
    /// The URL request could not be started.
    NoHandle,
}

/// The URL request of request `id` was started, or could not be.
pub fn on_request_started(state: &mut Update, id: u64, kind: Kind, started: Started, timeout_ms: i64) -> (r: Vec<Effect>)
    ensures
        match started {
            Started::NoRequest => has_failed(*old(state), *final(state), Seq::empty(), r@, "cannot create a URL request"@),
            Started::NoHandle => has_failed(*old(state), *final(state), Seq::empty(), r@, "cannot start the request"@),
            Started::Yes => if old(state).waits_for(id) {
                &&& *final(state) == (Update {
                    pending: Some((Pending { requested: true, ..old(state).pending->0 })),
                    ..*old(state)
                })
                &&& r@ == seq![(Effect::TimeOutLater { id, kind, after_ms: timeout_ms })]
            } else {
                &&& *final(state) == *old(state)
                &&& r@ == seq![Effect::DropHandle(id), (Effect::TimeOutLater { id, kind, after_ms: timeout_ms })]
            },
        },
{
    let mut out: Vec<Effect> = Vec::new();
    match started {
        Started::NoRequest => fail(state, copy_text("cannot create a URL request"), &mut out),
        Started::NoHandle => fail(state, copy_text("cannot start the request"), &mut out),
        Started::Yes => {
            let current = match &state.pending {
                Some(p) => p.id == id,
                None => false,
            };
            if current {
                match state.pending.take() {
                    Some(mut p) => {
                        p.requested = true;
                        state.pending = Some(p);
                    },
                    None => {},
                }
            } else {
                out.push(Effect::DropHandle(id));
            }
            out.push(Effect::TimeOutLater { id, kind, after_ms: timeout_ms });
        },
    }
    out
}

/// Request `id` had no answer in time.
pub fn on_timeout(state: &mut Update, id: u64, kind: Kind) -> (r: Vec<Effect>)
    ensures
        if old(state).waits_for(id) {
            has_failed(
                *old(state),
                *final(state),
                Seq::empty(),
                r@,
                if kind == Kind::Manifest {
                    "the update check timed out"@
                } else {
                    "the download timed out"@
                },
            )
        } else {
            nothing(*old(state), *final(state), r@)
        },
{
    let mut out: Vec<Effect> = Vec::new();
    let current = match &state.pending {
        Some(p) => p.id == id,
        None => false,
    };
    if current {
        let message = match kind {
            Kind::Manifest => "the update check timed out",
            Kind::Archive => "the download timed out",
        };
        fail(state, copy_text(message), &mut out);
    }
    out
}

/// The size that is reported of a download: as the transfer announces it, where it does.
pub open spec fn known_total(p: Pending, total: i64) -> u64 {
    if total > 0 { total as u64 } else { p.total }
}

/// The transfer of request `id` got somewhere: reported from time to time.
pub fn on_download_progress(state: &mut Update, id: u64, current: i64, total: i64, now: i64) -> (r: Vec<Effect>)
    ensures
        if !(old(state).waits_for(id) && old(state).pending->0.kind == Kind::Archive) {
            nothing(*old(state), *final(state), r@)
        } else {
            let p = old(state).pending->0;
            let q = (Pending { total: known_total(p, total), ..p });
            if now - p.last_progress < PROGRESS_EVERY_MS {
                *final(state) == (Update { pending: Some(q), ..*old(state) }) && r@.len() == 0
            } else {
                &&& *final(state) == (Update { pending: Some((Pending { last_progress: now, ..q })), ..*old(state) })
                &&& r@ == seq![
                    Effect::Report(
                        Status::Downloading {
                            version: p.version,
                            received: if current > 0 { current as u64 } else { 0 },
                            total: q.total,
                        },
                    ),
                ]
            }
        },
{
    let mut out: Vec<Effect> = Vec::new();
    let mine = match &state.pending {
        Some(p) => p.id == id && p.kind == Kind::Archive,
        None => false,
    };
    if !mine {
        return out;
    }
    match state.pending.take() {
        Some(mut p) => {
            if total > 0 {
                p.total = total as u64;
            }
            if now as i128 - p.last_progress as i128 >= PROGRESS_EVERY_MS as i128 {
                p.last_progress = now;
                let received: u64 = if current > 0 { current as u64 } else { 0 };
                out.push(Effect::Report(Status::Downloading { version: p.version.clone(), received, total: p.total }));
            }
            state.pending = Some(p);
        },
        None => {},
    }
    out
}

/// The largest accepted manifest and archive.
#[derive(Debug, Clone, Copy, PartialEq, Eq, Structural)]
pub struct Limits {
    pub manifest: usize,
    pub archive: u64,
}

/// What to do with a piece of data.
#[derive(Debug, Clone, Copy, PartialEq, Eq, Structural)]
pub enum Piece {
    /// It is of no request in flight, was kept, or ended the request.
    Done,
    /// Hash it and write it to the file of the request.
    Write,
}

/// A piece of the response of request `id` arrived.
pub fn on_download_data(state: &mut Update, id: u64, chunk: &[u8], limits: Limits) -> (r: (Piece, Vec<Effect>))
    ensures
        if !old(state).waits_for(id) {
            r.0 == Piece::Done && nothing(*old(state), *final(state), r.1@)
        } else {
            let p = old(state).pending->0;
            match p.kind {
                Kind::Manifest => if p.body@.len() + chunk@.len() > limits.manifest {
                    r.0 == Piece::Done && has_failed(*old(state), *final(state), Seq::empty(), r.1@, "the manifest is too large"@)
                } else {
                    let q = final(state).pending->0;
                    &&& r.0 == Piece::Done
                    &&& r.1@.len() == 0
                    &&& *final(state) == (Update { pending: Some((Pending { body: q.body, ..p })), ..*old(state) })
                    &&& q.body@ == p.body@ + chunk@
                },
                Kind::Archive => if p.received + chunk@.len() > limits.archive {
                    &&& r.0 == Piece::Done
                    &&& *final(state) == (Update { pending: None, ..*old(state) })
                    &&& r.1@.len() == 2
                    &&& r.1@[0] == Effect::Abandon(id)
                    &&& is_failure(r.1@[1], "the download is larger than any release"@)
                } else {
                    &&& r.0 == Piece::Write
                    &&& r.1@.len() == 0
                    &&& *final(state) == (Update {
                        pending: Some((Pending { received: (p.received + chunk@.len()) as u64, ..p })),
                        ..*old(state)
                    })
                },
            }
        },
{
    let mut out: Vec<Effect> = Vec::new();
    let mine = match &state.pending {
        Some(p) => p.id == id,
        None => false,
    };
    if !mine {
        return (Piece::Done, out);
    }
    match state.pending.take() {
        Some(mut p) => match p.kind {
            Kind::Manifest => {
                if p.body.len() > limits.manifest || chunk.len() > limits.manifest - p.body.len() {
                    state.pending = Some(p);
                    fail(state, copy_text("the manifest is too large"), &mut out);
                } else {
                    crate::bytes::push_range(&mut p.body, chunk, 0, chunk.len());
                    proof {
                        assert(chunk@.subrange(0, chunk@.len() as int) =~= chunk@);
                    }
                    state.pending = Some(p);
                }
                (Piece::Done, out)
            },
            Kind::Archive => {
                let more: u64 = chunk.len() as u64;
                if p.received > limits.archive || more > limits.archive - p.received {
                    state.pending = Some(p);
                    fail(state, copy_text("the download is larger than any release"), &mut out);
                    proof {
                        assert(out@.drop_last()[0] == Effect::Abandon(id));
                    }
                    (Piece::Done, out)
                } else {
                    p.received = p.received + more;
                    state.pending = Some(p);
                    (Piece::Write, out)
                }
            },
        },
        None => (Piece::Done, out),
    }
}

/// A piece of the archive could not be written.
pub fn on_write_failed(state: &mut Update, id: u64, error: &str) -> (r: Vec<Effect>)
    ensures
        if old(state).waits_for(id) {
            has_failed(*old(state), *final(state), Seq::empty(), r@, "cannot write the download: "@ + error@)
        } else {
            nothing(*old(state), *final(state), r@)
        },
{
    let mut out: Vec<Effect> = Vec::new();
    let mine = match &state.pending {
        Some(p) => p.id == id,
        None => false,
    };
    if mine {
        fail(state, join2("cannot write the download: ", error), &mut out);
    }
    out
}

/// What lets go of the URL request of a request that left the slot.
pub open spec fn handle_of(p: Pending) -> Seq<Effect> {
    if p.requested {
        seq![Effect::DropHandle(p.id)]
    } else {
        Seq::empty()
    }
}

/// What a status other than 200 means for a request.
pub open spec fn status_message(kind: Kind, status: i32) -> Seq<char> {
    let what = if kind == Kind::Manifest { "check"@ } else { "download"@ };
    if status == 0 {
        "the update "@ + what + " could not reach GitHub"@
    } else {
        "the update "@ + what + " was answered with HTTP "@ + signed_decimal(status as int)
    }
}

/// The file of an archive is deleted.
pub open spec fn removal(p: Pending) -> Seq<Effect> {
    if p.kind == Kind::Archive {
        seq![(Effect::RemoveArchive { version: p.version })]
    } else {
        Seq::empty()
    }
}

/// A failure of a request that left the slot.
pub open spec fn ended_badly(before: Update, after: Update, first: Seq<Effect>, r: Seq<Effect>, message: Seq<char>) -> bool {
    &&& after == (Update { pending: None, ..before })
    &&& r.len() == first.len() + 1
    &&& r.drop_last() == first
    &&& is_failure(r.last(), message)
}

/// The size that a download must have (0: none is known): the one that the release names, whatever the
/// transfer announced; where it names none, the announced one.
pub open spec fn promised(p: Pending) -> u64 {
    if p.size != 0 { p.size } else { p.total }
}

/// What follows once the URL request of request `id` is complete.
pub open spec fn request_completed(before: Update, after: Update, r: Seq<Effect>, id: u64, status: i32) -> bool {
    if !before.waits_for(id) {
        nothing(before, after, r)
    } else {
        let p = before.pending->0;
        if status != 200 {
            ended_badly(before, after, handle_of(p) + removal(p), r, status_message(p.kind, status))
        } else {
            match p.kind {
                Kind::Manifest => {
                    &&& after == (Update { pending: None, ..before })
                    &&& r == handle_of(p) + seq![(Effect::ReadManifest { body: p.body })]
                },
                Kind::Archive => if promised(p) != 0 && p.received != promised(p) {
                    ended_badly(
                        before,
                        after,
                        handle_of(p) + seq![Effect::CloseFile(id), (Effect::RemoveArchive { version: p.version })],
                        r,
                        "the download is "@ + decimal(p.received as nat) + " bytes, the release says "@ + decimal(promised(p) as nat),
                    )
                } else {
                    &&& after == (Update { pending: None, ..before })
                    &&& r == handle_of(p) + seq![
                        Effect::CloseFile(id),
                        (Effect::CheckArchive { id, version: p.version, expected: p.expected_sha256, received: p.received }),
                    ]
                },
            }
        }
    }
}

/// The URL request of request `id` is complete. `status`: the status of its response, zero where it did
/// not go through.
pub fn on_request_complete(state: &mut Update, id: u64, status: i32) -> (r: Vec<Effect>)
    ensures
        request_completed(*old(state), *final(state), r@, id, status),
{
    let mut out: Vec<Effect> = Vec::new();
    let mine = match &state.pending {
        Some(p) => p.id == id,
        None => false,
    };
    if !mine {
        return out;
    }
    match state.pending.take() {
        None => {},
        Some(p) => {
            if p.requested {
                out.push(Effect::DropHandle(p.id));
            }
            proof {
                assert(out@ =~= handle_of(p));
            }
            if status != 200 {
                let what = if p.kind == Kind::Manifest { "check" } else { "download" };
                let message = if status == 0 {
                    join3("the update ", what, " could not reach GitHub")
                } else {
                    let mut m = join3("the update ", what, " was answered with HTTP ");
                    let number = signed_text(status as i64);
                    m.append(number.as_str());
                    m
                };
                if p.kind == Kind::Archive {
                    out.push(Effect::RemoveArchive { version: p.version });
                }
                proof {
                    assert(out@ =~= handle_of(p) + removal(p));
                }
                fail(state, message, &mut out);
                proof {
                    assert(handle_of(p) + removal(p) + abandoned(None) =~= handle_of(p) + removal(p));
                }
                return out;
            }
            match p.kind {
                Kind::Manifest => {
                    out.push(Effect::ReadManifest { body: p.body });
                    proof {
                        assert(out@ =~= handle_of(p) + seq![(Effect::ReadManifest { body: p.body })]);
                    }
                },
                Kind::Archive => {
                    out.push(Effect::CloseFile(id));
                    let promised: u64 = if p.size != 0 { p.size } else { p.total };
                    if promised != 0 && p.received != promised {
                        let received = decimal_text(p.received);
                        let total = decimal_text(promised);
                        let mut message = join3("the download is ", received.as_str(), " bytes, the release says ");
                        message.append(total.as_str());
                        out.push(Effect::RemoveArchive { version: p.version });
                        let ghost first = handle_of(p) + seq![Effect::CloseFile(id), (Effect::RemoveArchive { version: p.version })];
                        proof {
                            assert(out@ =~= first);
                        }
                        fail(state, message, &mut out);
                        proof {
                            assert(first + abandoned(None) =~= first);
                        }
                    } else {
                        out.push(Effect::CheckArchive { id, version: p.version, expected: p.expected_sha256, received: p.received });
                        proof {
                            assert(out@ =~= handle_of(p) + seq![
                                Effect::CloseFile(id),
                                (Effect::CheckArchive { id, version: p.version, expected: p.expected_sha256, received: p.received }),
                            ]);
                        }
                    }
                },
            }
        },
    }
    out
}

/// Only an archive whose hash is the release's is unpacked; any other is deleted, and the update fails.
pub proof fn only_a_matching_archive_is_unpacked(
    before: Update,
    after: Update,
    r: Seq<Effect>,
    version: String,
    digest: Seq<char>,
    expected: Seq<char>,
    received: u64,
)
    requires
        archive_checked(before, after, r, version, digest, expected, received),
    ensures
        (exists|i: int| 0 <= i < r.len() && #[trigger] r[i] is Unpack) <==> digest == expected,
        (exists|i: int| 0 <= i < r.len() && #[trigger] r[i] == (Effect::RemoveArchive { version })) <==> digest != expected,
        after.staged == before.staged,
{
    if digest == expected {
        assert(r[0] is Unpack);
        assert(forall|i: int| 0 <= i < r.len() ==> #[trigger] r[i] != (Effect::RemoveArchive { version }));
    } else {
        let gone = seq![(Effect::RemoveArchive { version })] + abandoned(before.pending);
        assert(r.drop_last()[0] == (Effect::RemoveArchive { version }));
        assert(r[0] == (Effect::RemoveArchive { version }));
        assert forall|i: int| 0 <= i < r.len() implies !(#[trigger] r[i] is Unpack) by {
            if i < r.len() - 1 {
                assert(r[i] == r.drop_last()[i]);
                assert(r[i] == gone[i]);
            }
        }
    }
}

/// A download whose size is not the one that the release names is deleted and never checked any further,
/// whatever size the transfer announced; where the release names none, the same holds of the announced
/// size, where there is one.
pub proof fn a_download_of_the_wrong_size_is_deleted(before: Update, after: Update, r: Seq<Effect>, id: u64)
    requires
        before.waits_for(id),
        before.pending->0.kind == Kind::Archive,
        request_completed(before, after, r, id, 200),
    ensures
        ({
            let p = before.pending->0;
            let fits = promised(p) == 0 || p.received == promised(p);
            &&& p.size != 0 ==> fits == (p.received == p.size)
            &&& after.pending is None
            &&& (exists|i: int| 0 <= i < r.len() && #[trigger] r[i] is CheckArchive) <==> fits
            &&& (exists|i: int| 0 <= i < r.len() && #[trigger] r[i] == (Effect::RemoveArchive { version: p.version })) <==> !fits
        }),
{
    let p = before.pending->0;
    let h: int = handle_of(p).len() as int;
    if promised(p) == 0 || p.received == promised(p) {
        assert(r[h + 1] is CheckArchive);
        assert(forall|i: int| 0 <= i < r.len() ==> #[trigger] r[i] != (Effect::RemoveArchive { version: p.version }));
    } else {
        let first = handle_of(p) + seq![Effect::CloseFile(id), (Effect::RemoveArchive { version: p.version })];
        assert(r.drop_last()[h + 1] == (Effect::RemoveArchive { version: p.version }));
        assert(r[h + 1] == (Effect::RemoveArchive { version: p.version }));
        assert forall|i: int| 0 <= i < r.len() implies !(#[trigger] r[i] is CheckArchive) by {
            if i < r.len() - 1 {
                assert(r[i] == r.drop_last()[i]);
                assert(r[i] == first[i]);
            }
        }
    }
}

// ------------------------------------------------------------------------------ install

/// The result of asking for an installation.
pub enum Install {
    /// Nothing is staged.
    NotStaged,
    /// Start the helper in `source` with these arguments.
    Start { source: String, arguments: Vec<String> },
    /// It failed.
    Failed(Vec<Effect>),
}

/// The command line of the apply helper.
pub open spec fn helper_arguments(source: Seq<char>, target: Seq<char>, pid: u32) -> Seq<Seq<char>> {
    seq![APPLY_FLAG@, "--source"@, source, "--target"@, target, "--pid"@, decimal(pid as nat)]
}

/// Starts the staged build as the apply helper. `target`: the directory that is replaced, if it is
/// known; `helper_exists`: the staged build has an executable, called `exe`.
pub fn install_now(state: &mut Update, target: Option<String>, helper_exists: bool, exe: &str, pid: u32) -> (r: Install)
    ensures
        match (old(state).staged, target) {
            (None, _) => r is NotStaged && *final(state) == *old(state),
            (Some(_), None) => r is Failed && has_failed(
                *old(state),
                *final(state),
                Seq::empty(),
                r->Failed_0@,
                "cannot find the directory sta runs from"@,
            ),
            (Some(source), Some(t)) => if helper_exists {
                &&& *final(state) == *old(state)
                &&& r is Start
                &&& r->source == source
                &&& crate::text::text_views(r->arguments@) == helper_arguments(source@, t@, pid)
            } else {
                r is Failed && has_failed(*old(state), *final(state), Seq::empty(), r->Failed_0@, "the staged build has no "@ + exe@)
            },
        },
{
    let source: String = match &state.staged {
        None => {
            return Install::NotStaged;
        },
        Some(s) => s.clone(),
    };
    let mut out: Vec<Effect> = Vec::new();
    match target {
        None => {
            fail(state, copy_text("cannot find the directory sta runs from"), &mut out);
            Install::Failed(out)
        },
        Some(t) => {
            if !helper_exists {
                fail(state, join2("the staged build has no ", exe), &mut out);
                return Install::Failed(out);
            }
            let arguments = vec![
                copy_text(APPLY_FLAG),
                copy_text("--source"),
                source.clone(),
                copy_text("--target"),
                t,
                copy_text("--pid"),
                decimal_text(pid as u64),
            ];
            proof {
                assert(crate::text::text_views(arguments@) =~= helper_arguments(source@, t@, pid));
            }
            Install::Start { source, arguments }
        },
    }
}

/// The helper could not be started.
pub fn on_helper_failed(state: &mut Update, error: &str) -> (r: Vec<Effect>)
    ensures
        has_failed(*old(state), *final(state), Seq::empty(), r@, "cannot start the apply helper: "@ + error@),
{
    let mut out: Vec<Effect> = Vec::new();
    fail(state, join2("cannot start the apply helper: ", error), &mut out);
    out
}

/// What a command line asks the process to be.
pub enum Apply {
    /// A browser.
    Browser,
    /// The helper, but without the directories that it needs.
    Incomplete,
    /// The helper that replaces `target` with `source`, once process `pid` is gone (zero: at once).
    Replace { source: String, target: String, pid: u32 },
}

/// Where an argument first stands, from position `i` on.
pub open spec fn position_of(args: Seq<Seq<char>>, name: Seq<char>, i: int) -> Option<int>
    decreases args.len() - i,
{
    if i < 0 || i >= args.len() {
        None
    } else if args[i] == name {
        Some(i)
    } else {
        position_of(args, name, i + 1)
    }
}

/// The argument that follows the first `name`.
pub open spec fn value_of(args: Seq<Seq<char>>, name: Seq<char>) -> Option<Seq<char>> {
    match position_of(args, name, 0) {
        Some(i) => if i + 1 < args.len() { Some(args[i + 1]) } else { None },
        None => None,
    }
}

/// The digits of a number, read from the left: `None` where one is no digit or the number is larger
/// than `u32` holds.
pub open spec fn number_in(digits: Seq<char>) -> Option<int>
    decreases digits.len(),
{
    if digits.len() == 0 {
        Some(0)
    } else {
        let c = digits.last();
        match number_in(digits.drop_last()) {
            Some(n) => if '0' <= c && c <= '9' && n * 10 + (c as int - '0' as int) <= u32::MAX {
                Some(n * 10 + (c as int - '0' as int))
            } else {
                None
            },
            None => None,
        }
    }
}

/// A decimal number, with or without a plus sign.
pub open spec fn parsed_u32(s: Seq<char>) -> Option<int> {
    let digits = if s.len() > 0 && s[0] == '+' { s.skip(1) } else { s };
    if digits.len() == 0 { None } else { number_in(digits) }
}

/// Reads a decimal number.
pub fn parse_u32(s: &str) -> (r: Option<u32>)
    ensures
        match r {
            Some(n) => parsed_u32(s@) == Some(n as int),
            None => parsed_u32(s@) is None,
        },
{
    let cs = chars_of(s);
    let from: usize = if cs.len() > 0 && cs[0] == '+' { 1 } else { 0 };
    let ghost digits = if s@.len() > 0 && s@[0] == '+' { s@.skip(1) } else { s@ };
    if cs.len() == from {
        return None;
    }
    let mut n: u64 = 0;
    let mut i: usize = from;
    proof {
        assert(digits.take(0) =~= Seq::<char>::empty());
    }
    while i < cs.len()
        invariant
            from <= i <= cs@.len(),
            cs@ == s@,
            digits == s@.skip(from as int),
            digits.len() > 0,
            parsed_u32(s@) == number_in(digits),
            number_in(digits.take(i - from)) == Some(n as int),
            n <= u32::MAX,
        decreases cs@.len() - i,
    {
        let c = cs[i];
        proof {
            assert(digits.take(i + 1 - from).drop_last() =~= digits.take(i - from));
            assert(digits.take(i + 1 - from).last() == c);
        }
        if !('0' <= c && c <= '9') {
            proof {
                number_stays_bad(digits, i + 1 - from);
            }
            return None;
        }
        let d: u64 = c as u64 - '0' as u64;
        if n * 10 + d > u32::MAX as u64 {
            proof {
                number_stays_bad(digits, i + 1 - from);
            }
            return None;
        }
        n = n * 10 + d;
        i = i + 1;
    }
    proof {
        assert(digits.take(i - from) =~= digits);
    }
    Some(n as u32)
}

/// A number that could not be read does not become one by more digits.
proof fn number_stays_bad(digits: Seq<char>, k: int)
    requires
        0 <= k <= digits.len(),
        number_in(digits.take(k)) is None,
    ensures
        number_in(digits) is None,
    decreases digits.len() - k,
{
    if k < digits.len() {
        assert(digits.take(k + 1).drop_last() =~= digits.take(k));
        number_stays_bad(digits, k + 1);
    } else {
        assert(digits.take(k) =~= digits);
    }
}

fn find_value(args: &Vec<String>, name: &str) -> (r: Option<String>)
    ensures
        match r {
            Some(v) => value_of(crate::text::text_views(args@), name@) == Some(v@),
            None => value_of(crate::text::text_views(args@), name@) is None,
        },
{
    let ghost views = crate::text::text_views(args@);
    let mut i: usize = 0;
    while i < args.len()
        invariant
            i <= args@.len(),
            views == crate::text::text_views(args@),
            position_of(views, name@, 0) == position_of(views, name@, i as int),
        decreases args@.len() - i,
    {
        proof {
            assert(views[i as int] == args@[i as int]@);
        }
        if same_text(args[i].as_str(), name) {
            if i + 1 < args.len() {
                proof {
                    assert(views[i + 1] == args@[i + 1]@);
                }
                return Some(args[i + 1].clone());
            }
            return None;
        }
        i = i + 1;
    }
    None
}

/// What the command line asks this process to be: the helper, if the flag is anywhere in it.
pub fn apply_from_command_line(args: &Vec<String>) -> (r: Apply)
    ensures
        ({
            let views = crate::text::text_views(args@);
            if position_of(views, APPLY_FLAG@, 0) is None {
                r is Browser
            } else {
                match (value_of(views, "--source"@), value_of(views, "--target"@)) {
                    (Some(source), Some(target)) => {
                        &&& r is Replace
                        &&& r->Replace_source@ == source
                        &&& r->target@ == target
                        &&& r->pid == match value_of(views, "--pid"@) {
                            Some(p) => match parsed_u32(p) {
                                Some(n) => n,
                                None => 0,
                            },
                            None => 0,
                        }
                    },
                    _ => r is Incomplete,
                }
            }
        }),
{
    let ghost views = crate::text::text_views(args@);
    let mut helper = false;
    let mut i: usize = 0;
    while i < args.len() && !helper
        invariant
            i <= args@.len(),
            views == crate::text::text_views(args@),
            helper ==> position_of(views, APPLY_FLAG@, 0) is Some,
            !helper ==> position_of(views, APPLY_FLAG@, 0) == position_of(views, APPLY_FLAG@, i as int),
        decreases args@.len() - i,
    {
        proof {
            assert(views[i as int] == args@[i as int]@);
        }
        if same_text(args[i].as_str(), APPLY_FLAG) {
            helper = true;
        }
        i = i + 1;
    }
    if !helper {
        return Apply::Browser;
    }
    match (find_value(args, "--source"), find_value(args, "--target")) {
        (Some(source), Some(target)) => {
            let pid: u32 = match find_value(args, "--pid") {
                Some(p) => match parse_u32(p.as_str()) {
                    Some(n) => n,
                    None => 0,
                },
                None => 0,
            };
            Apply::Replace { source, target, pid }
        },
        _ => Apply::Incomplete,
    }
}

/// After an attempt to replace a file that failed.
#[derive(Debug, Clone, Copy, PartialEq, Eq, Structural)]
pub struct Retry {
    /// Wait this long.
    pub wait_ms: u64,
    /// Try again (otherwise the update is called off).
    pub again: bool,
}

/// What to do after attempt number `attempt` (from zero) to replace a file failed.
pub fn after_failed_copy(attempt: u64) -> (r: Retry)
    requires
        attempt < COPY_ATTEMPTS,
    ensures
        r.wait_ms == 100 * (attempt + 1),
        r.again == (attempt + 1 < COPY_ATTEMPTS),
{
    Retry { wait_ms: 100 * (attempt + 1), again: attempt + 1 < COPY_ATTEMPTS }
}

/// A build being copied over the installed one: the directories still to be listed (as paths below its
/// root, the root itself being the empty path) and the files copied so far. Files that only the
/// installed build has are left alone: an old locale is harmless, a missing library is not.
pub struct Copying {
    pub dirs: Vec<String>,
    pub files: u32,
}

/// What to do with an entry of a listed directory.
pub enum CopyStep {
    /// Create the directory at the destination.
    MakeDir { path: String },
    /// Create the parent directory at the destination, then copy the file.
    CopyFile { path: String },
}

/// What follows a copy that failed.
pub enum CopyFailure {
    /// Wait, then try again.
    Again { wait_ms: u64 },
    /// Wait, then call the update off.
    Off { wait_ms: u64, message: String },
}

impl Copying {
    /// Starts with the root.
    pub fn new() -> (r: Copying)
        ensures
            text_views(r.dirs@) == seq![Seq::<char>::empty()],
            r.files == 0,
    {
        let r = Copying { dirs: vec![String::new()], files: 0 };
        proof {
            assert(text_views(r.dirs@) =~= seq![Seq::<char>::empty()]);
        }
        r
    }

    /// The directory to list next: the one that was found last. `None` when all have been listed.
    pub fn next_dir(&mut self) -> (r: Option<String>)
        ensures
            final(self).files == old(self).files,
            match r {
                Some(dir) => old(self).dirs@.len() > 0 && dir == old(self).dirs@.last() && final(self).dirs@ == old(
                    self,
                ).dirs@.drop_last(),
                None => old(self).dirs@.len() == 0 && final(self).dirs@ == old(self).dirs@,
            },
    {
        self.dirs.pop()
    }

    /// An entry of the directory that was listed: a directory is created and listed later, a file copied.
    pub fn on_entry(&mut self, path: String, is_dir: bool) -> (r: CopyStep)
        ensures
            final(self).files == old(self).files,
            match r {
                CopyStep::MakeDir { path: p } => is_dir && p@ == path@ && final(self).dirs@ == old(self).dirs@.push(path),
                CopyStep::CopyFile { path: p } => !is_dir && p@ == path@ && final(self).dirs@ == old(self).dirs@,
            },
    {
        if is_dir {
            let made = copy_text(path.as_str());
            self.dirs.push(path);
            CopyStep::MakeDir { path: made }
        } else {
            CopyStep::CopyFile { path }
        }
    }

    /// A file was copied.
    pub fn on_copied(&mut self)
        requires
            old(self).files < u32::MAX,
        ensures
            final(self).files == old(self).files + 1,
            final(self).dirs@ == old(self).dirs@,
    {
        self.files = self.files + 1;
    }
}

/// Attempt number `attempt` (from zero) to copy a file failed. A file may still be locked by a process
/// that has not quite exited, so a few attempts are made.
pub fn on_copy_failed(destination: &str, attempt: u64, error: &str) -> (r: CopyFailure)
    requires
        attempt < COPY_ATTEMPTS,
    ensures
        match r {
            CopyFailure::Again { wait_ms } => wait_ms == 100 * (attempt + 1) && attempt + 1 < COPY_ATTEMPTS,
            CopyFailure::Off { wait_ms, message } => {
                &&& wait_ms == 100 * (attempt + 1)
                &&& attempt + 1 == COPY_ATTEMPTS
                &&& message@ == destination@ + ": "@ + error@
            },
        },
{
    let retry = after_failed_copy(attempt);
    if retry.again {
        CopyFailure::Again { wait_ms: retry.wait_ms }
    } else {
        CopyFailure::Off { wait_ms: retry.wait_ms, message: join3(destination, ": ", error) }
    }
}

// ------------------------------------------------------------------------------ paths

/// The operating systems that an executable is named for.
#[derive(Debug, Clone, Copy, PartialEq, Eq, Structural)]
pub enum System {
    Windows,
    Mac,
    Other,
}

/// The name of the executable.
pub fn exe_name(system: System) -> (r: &'static str)
    ensures
        r@ == (if system == System::Windows { "sta.exe"@ } else { "sta"@ }),
{
    if system == System::Windows { "sta.exe" } else { "sta" }
}

/// Where the executable lies below the root of a payload.
pub fn exe_in(system: System) -> (r: Vec<&'static str>)
    ensures
        r@.len() == (if system == System::Mac { 3int } else { 1 }),
        r@.last()@ == (if system == System::Windows { "sta.exe"@ } else { "sta"@ }),
        system == System::Mac ==> r@[0]@ == "Contents"@ && r@[1]@ == "MacOS"@,
{
    if system == System::Mac {
        vec!["Contents", "MacOS", "sta"]
    } else {
        vec![exe_name(system)]
    }
}

/// A directory that may hold the browser.
pub struct Candidate {
    pub path: String,
    /// The executable lies in it.
    pub has_exe: bool,
}

/// The first directory from position `i` on that holds the browser.
pub open spec fn found_in(level: Seq<Candidate>, i: int) -> Option<Seq<char>>
    decreases level.len() - i,
{
    if i < 0 || i >= level.len() {
        None
    } else if level[i].has_exe {
        Some(level[i].path@)
    } else {
        found_in(level, i + 1)
    }
}

/// The payload in the levels from `depth` on: the first of a level, and of the outermost level that has
/// one.
pub open spec fn payload_in(levels: Seq<Vec<Candidate>>, depth: int) -> Option<Seq<char>>
    decreases PAYLOAD_LEVELS - depth,
{
    if depth < 0 || depth >= PAYLOAD_LEVELS || depth >= levels.len() {
        None
    } else {
        match found_in(levels[depth]@, 0) {
            Some(path) => Some(path),
            None => payload_in(levels, depth + 1),
        }
    }
}

fn find_in(level: &Vec<Candidate>) -> (r: Option<String>)
    ensures
        match r {
            Some(p) => found_in(level@, 0) == Some(p@),
            None => found_in(level@, 0) is None,
        },
{
    let mut i: usize = 0;
    while i < level.len()
        invariant
            i <= level@.len(),
            found_in(level@, 0) == found_in(level@, i as int),
        decreases level@.len() - i,
    {
        if level[i].has_exe {
            return Some(copy_text(level[i].path.as_str()));
        }
        i = i + 1;
    }
    None
}

/// The payload inside an unpacked archive: the directory that holds the browser. `levels[0]` is the
/// directory itself, and each level holds the directories inside those of the level before; three
/// levels are searched.
pub fn payload_root(levels: &Vec<Vec<Candidate>>) -> (r: Option<String>)
    ensures
        match r {
            Some(p) => payload_in(levels@, 0) == Some(p@),
            None => payload_in(levels@, 0) is None,
        },
{
    let mut depth: usize = 0;
    while depth < PAYLOAD_LEVELS && depth < levels.len()
        invariant
            depth <= PAYLOAD_LEVELS,
            payload_in(levels@, 0) == payload_in(levels@, depth as int),
        decreases PAYLOAD_LEVELS - depth,
    {
        match find_in(&levels[depth]) {
            Some(p) => {
                return Some(p);
            },
            None => {},
        }
        depth = depth + 1;
    }
    None
}

/// An entry of the staging directory is finished business: everything that a download or an unpacking
/// left, but not the log of the helper.
pub fn is_finished(name: &str) -> (r: bool)
    ensures
        r == (name@ != "apply.log"@ && "sta-"@.is_prefix_of(name@)),
{
    !same_text(name, "apply.log") && has_prefix(name, "sta-")
}

/// The name of the archive of a version.
pub fn archive_name(version: &str) -> (r: String)
    ensures
        r@ == "sta-"@ + version@ + ".zip"@,
{
    join3("sta-", version, ".zip")
}

/// The name of the directory that the archive of a version is unpacked into.
pub fn unpacked_name(version: &str) -> (r: String)
    ensures
        r@ == "sta-"@ + version@,
{
    join2("sta-", version)
}

/// Drops anything in flight.
pub fn clear(state: &mut Update) -> (r: Vec<Effect>)
    ensures
        *final(state) == (Update { pending: None, ..*old(state) }),
        r@ == abandoned(old(state).pending),
{
    let mut out: Vec<Effect> = Vec::new();
    match state.pending.take() {
        Some(p) => out.push(Effect::Abandon(p.id)),
        None => {},
    }
    proof {
        assert(out@ =~= abandoned(old(state).pending));
    }
    out
}

/// The updater as it looks from outside.
pub struct Snapshot {
    pub allowed: bool,
    pub checked: bool,
    pub pending: String,
    pub pending_id: u64,
    pub latest: Option<String>,
    pub staged: Option<String>,
}

/// The updater as it looks from outside.
pub fn debug_snapshot(state: &Update, allowed: bool) -> (r: Snapshot)
    ensures
        r.allowed == allowed,
        r.checked == state.checked,
        match state.pending {
            Some(p) => r.pending_id == p.id && r.pending@ == (if p.kind == Kind::Manifest { "Manifest"@ } else { "Archive"@ }),
            None => r.pending_id == 0 && r.pending@ == "none"@,
        },
        r.latest == match state.latest {
            Some(release) => Some(release.version),
            None => None,
        },
        r.staged == state.staged,
{
    let pending = match &state.pending {
        Some(p) => if p.kind == Kind::Manifest { copy_text("Manifest") } else { copy_text("Archive") },
        None => copy_text("none"),
    };
    let pending_id: u64 = match &state.pending {
        Some(p) => p.id,
        None => 0,
    };
    let latest = match &state.latest {
        Some(release) => Some(release.version.clone()),
        None => None,
    };
    let staged = match &state.staged {
        Some(s) => Some(s.clone()),
        None => None,
    };
    Snapshot { allowed, checked: state.checked, pending, pending_id, latest, staged }
}

// ------------------------------------------------------------------------------ what holds

/// An update that failed is over: nothing is in flight, what was is let go of, nothing else was changed,
/// and the last thing that is done is to report the failure with its reason.
pub proof fn a_failure_ends_and_is_reported(before: Update, after: Update, first: Seq<Effect>, r: Seq<Effect>, message: Seq<char>)
    requires
        has_failed(before, after, first, r, message),
    ensures
        after.pending is None,
        after.latest == before.latest && after.staged == before.staged && after.checked == before.checked && after.next_id == before.next_id,
        r.len() > 0,
        r.last() is Report && r.last()->Report_0 is Failed && r.last()->Report_0->message@ == message,
        before.pending is Some ==> r.contains(Effect::Abandon(before.pending->0.id)),
        first.len() < r.len() && r.take(first.len() as int) == first,
        before.pending is None ==> r.len() == first.len() + 1,
{
    let gone = first + abandoned(before.pending);
    assert(forall|i: int| 0 <= i < gone.len() ==> #[trigger] r[i] == r.drop_last()[i]);
    assert(r.take(first.len() as int) =~= first);
    if before.pending is Some {
        assert(r[first.len() as int] == Effect::Abandon(before.pending->0.id));
    }
}

/// What an archive becomes: with the hash of the release it is unpacked, and nothing else happens; with any
/// other it is deleted, and the failure names the version, the size and the hash that came.
pub proof fn an_archive_is_judged_by_its_hash(
    before: Update,
    after: Update,
    r: Seq<Effect>,
    version: String,
    digest: Seq<char>,
    expected: Seq<char>,
    received: u64,
)
    requires
        archive_checked(before, after, r, version, digest, expected, received),
    ensures
        digest == expected ==> after == before && r.len() == 1 && r[0] == (Effect::Unpack { version }),
        digest != expected ==> {
            &&& after.pending is None && after.staged == before.staged
            &&& r[0] == (Effect::RemoveArchive { version })
            &&& r.last() is Report && r.last()->Report_0 is Failed
            &&& r.last()->Report_0->message@ == "the download of "@ + version@ + " does not match the release ("@ + decimal(received as nat)
                + " bytes, sha256 "@ + digest + ")"@
        },
{
    if digest != expected {
        let gone = seq![(Effect::RemoveArchive { version })] + abandoned(before.pending);
        assert(r.drop_last()[0] == gone[0]);
        assert(r[0] == r.drop_last()[0]);
    }
}

/// How a request ends: only status 200 leads on. A manifest that arrived is read as it arrived; an archive
/// that arrived is closed and then checked against the hash that its release named, if it has the size that
/// the release named (where it named none: the size that was announced, if any). Everything else fails with
/// its reason, and an archive is deleted. The URL request is let go of exactly if there was one.
pub proof fn a_request_leads_on_with_status_200_alone(before: Update, after: Update, r: Seq<Effect>, id: u64, status: i32)
    requires
        before.pending is Some,
        before.pending->0.id == id,
        request_completed(before, after, r, id, status),
    ensures
        ({
            let p = before.pending->0;
            let wrong = p.kind == Kind::Archive && ((p.size != 0 && p.received != p.size) || (p.size == 0 && p.total != 0 && p.received != p.total));
            &&& after == (Update { pending: None, ..before })
            &&& r.contains(Effect::DropHandle(id)) == p.requested
            &&& (r.last() is Report && r.last()->Report_0 is Failed) == (status != 200 || wrong)
            &&& r.contains((Effect::RemoveArchive { version: p.version })) == (p.kind == Kind::Archive && (status != 200 || wrong))
            &&& status == 200 && p.kind == Kind::Manifest ==> r.last() == (Effect::ReadManifest { body: p.body })
            &&& status == 200 && p.kind == Kind::Archive ==> r.contains(Effect::CloseFile(id))
            &&& status == 200 && p.kind == Kind::Archive && !wrong ==> r.last() == (Effect::CheckArchive {
                id,
                version: p.version,
                expected: p.expected_sha256,
                received: p.received,
            })
            &&& status == 0 && p.kind == Kind::Manifest ==> r.last()->Report_0->message@ == "the update "@ + "check"@ + " could not reach GitHub"@
            &&& status == 0 && p.kind == Kind::Archive ==> r.last()->Report_0->message@ == "the update "@ + "download"@ + " could not reach GitHub"@
            &&& status != 0 && status != 200 && p.kind == Kind::Manifest ==> r.last()->Report_0->message@ == "the update "@ + "check"@
                + " was answered with HTTP "@ + signed_decimal(status as int)
            &&& status != 0 && status != 200 && p.kind == Kind::Archive ==> r.last()->Report_0->message@ == "the update "@ + "download"@
                + " was answered with HTTP "@ + signed_decimal(status as int)
            &&& status == 200 && wrong ==> r.last()->Report_0->message@ == "the download is "@ + decimal(p.received as nat)
                + " bytes, the release says "@ + decimal(if p.size != 0 { p.size as nat } else { p.total as nat })
        }),
{
    let p = before.pending->0;
    let h = handle_of(p).len() as int;
    let removed = (Effect::RemoveArchive { version: p.version });
    assert(forall|i: int| 0 <= i < r.len() - 1 ==> #[trigger] r[i] == r.drop_last()[i]);
    if p.requested {
        assert(handle_of(p)[0] == Effect::DropHandle(id));
        assert(r[0] == Effect::DropHandle(id));
    }
    let wrong = p.kind == Kind::Archive && ((p.size != 0 && p.received != p.size) || (p.size == 0 && p.total != 0 && p.received != p.total));
    if status != 200 {
        if p.kind == Kind::Archive {
            assert((handle_of(p) + removal(p))[h] == removed);
            assert(r[h] == removed);
        }
    } else if p.kind == Kind::Archive {
        if wrong {
            let first = handle_of(p) + seq![Effect::CloseFile(id), removed];
            assert(first[h] == Effect::CloseFile(id) && first[h + 1] == removed);
            assert(r[h] == Effect::CloseFile(id));
            assert(r[h + 1] == removed);
        } else {
            assert(r[h] == Effect::CloseFile(id));
        }
    }
}

/// Where an argument stands first.
proof fn position_found(args: Seq<Seq<char>>, name: Seq<char>, i: int, k: int)
    requires
        0 <= i <= k < args.len(),
        args[k] == name,
        forall|j: int| i <= j < k ==> #[trigger] args[j] != name,
    ensures
        position_of(args, name, i) == Some(k),
    decreases k - i,
{
    if i < k {
        position_found(args, name, i + 1, k);
    }
}

proof fn number_reads_back(n: nat)
    requires
        n <= u32::MAX,
    ensures
        number_in(decimal(n)) == Some(n as int),
        decimal(n).len() > 0,
        '0' <= decimal(n)[0] <= '9',
    decreases n,
{
    let d = decimal(n);
    if n < 10 {
        assert(d.drop_last() =~= Seq::<char>::empty());
        assert(number_in(d.drop_last()) == Some(0int));
    } else {
        number_reads_back(n / 10);
        assert(d.drop_last() =~= decimal(n / 10));
        assert(d[0] == decimal(n / 10)[0]);
    }
    assert(d.last() as int == 48 + n % 10);
}

/// A number of 32 bits is read back from its digits, also behind a plus sign; a text without digits, with
/// anything else in it, or with a number that is too large is none.
pub proof fn a_process_number_reads_back(n: nat, s: Seq<char>)
    ensures
        n <= u32::MAX ==> parsed_u32(decimal(n)) == Some(n as int) && parsed_u32(seq!['+'] + decimal(n)) == Some(n as int),
        s.len() == 0 ==> parsed_u32(s) is None,
        (exists|k: int| 1 <= k < s.len() && !('0' <= #[trigger] s[k] <= '9')) ==> parsed_u32(s) is None,
        parsed_u32(s) is Some ==> 0 <= parsed_u32(s)->0 <= 0xFFFF_FFFF,
        parsed_u32(s) is Some && s[0] != '+' ==> parsed_u32(s)->0 == decimal_value(s),
{
    if n <= u32::MAX {
        number_reads_back(n);
        assert((seq!['+'] + decimal(n)).skip(1) =~= decimal(n));
    }
    let digits = if s.len() > 0 && s[0] == '+' { s.skip(1) } else { s };
    numbers_are_digits(digits);
    if exists|k: int| 1 <= k < s.len() && !('0' <= #[trigger] s[k] <= '9') {
        let k = choose|k: int| 1 <= k < s.len() && !('0' <= #[trigger] s[k] <= '9');
        if parsed_u32(s) is Some {
            if s[0] == '+' {
                assert(digits[k - 1] == s[k]);
            } else {
                assert(digits[k] == s[k]);
            }
        }
    }
}

proof fn numbers_are_digits(digits: Seq<char>)
    ensures
        number_in(digits) is Some ==> number_in(digits)->0 == decimal_value(digits) && 0 <= number_in(digits)->0 <= 0xFFFF_FFFF && forall|k: int|
            0 <= k < digits.len() ==> '0' <= #[trigger] digits[k] <= '9',
    decreases digits.len(),
{
    if digits.len() > 0 {
        let front = digits.drop_last();
        numbers_are_digits(front);
        if number_in(digits) is Some {
            assert forall|k: int| 0 <= k < digits.len() implies '0' <= #[trigger] digits[k] <= '9' by {
                if k < front.len() {
                    assert(digits[k] == front[k]);
                }
            }
        }
    }
}

/// The helper reads from its command line what it was started with: the flag that makes it the helper, the
/// staged build, the directory to replace, and the process to wait for.
pub proof fn the_helper_reads_what_it_is_told(source: Seq<char>, target: Seq<char>, pid: u32)
    requires
        source != "--target"@ && source != "--pid"@ && target != "--pid"@,
    ensures
        ({
            let args = helper_arguments(source, target, pid);
            &&& position_of(args, "--sta-apply-update"@, 0) is Some
            &&& value_of(args, "--source"@) == Some(source)
            &&& value_of(args, "--target"@) == Some(target)
            &&& value_of(args, "--pid"@) is Some
            &&& parsed_u32(value_of(args, "--pid"@)->0) == Some(pid as int)
        }),
{
    let args = helper_arguments(source, target, pid);
    reveal_strlit("--sta-apply-update");
    reveal_strlit("--source");
    reveal_strlit("--target");
    reveal_strlit("--pid");
    assert("--sta-apply-update"@.len() == 18 && "--source"@.len() == 8 && "--target"@.len() == 8 && "--pid"@.len() == 5);
    assert("--source"@[2] == 's' && "--target"@[2] == 't');
    position_found(args, "--sta-apply-update"@, 0, 0);
    position_found(args, "--source"@, 0, 1);
    position_found(args, "--target"@, 0, 3);
    position_found(args, "--pid"@, 0, 5);
    a_process_number_reads_back(pid as nat, Seq::empty());
}

proof fn found_is_first(level: Seq<Candidate>, i: int)
    requires
        0 <= i,
    ensures
        match found_in(level, i) {
            Some(path) => exists|k: int| i <= k < level.len() && (#[trigger] level[k]).has_exe && level[k].path@ == path && forall|j: int|
                i <= j < k ==> !(#[trigger] level[j]).has_exe,
            None => forall|j: int| i <= j < level.len() ==> !(#[trigger] level[j]).has_exe,
        },
    decreases level.len() - i,
{
    if i < level.len() {
        if level[i].has_exe {
            assert(level[i].path@ == found_in(level, i)->0);
        } else {
            found_is_first(level, i + 1);
        }
    }
}

/// The payload of an archive is the first directory that holds the browser in the first of the three
/// outermost levels that has one.
pub proof fn the_payload_is_the_outermost_build(levels: Seq<Vec<Candidate>>, d: int)
    requires
        0 <= d < levels.len(),
        forall|e: int, j: int| 0 <= e < d && 0 <= j < levels[e]@.len() ==> !(#[trigger] levels[e]@[j]).has_exe,
        exists|k: int| 0 <= k < levels[d]@.len() && (#[trigger] levels[d]@[k]).has_exe,
    ensures
        d < 3 ==> exists|k: int|
            0 <= k < levels[d]@.len() && (#[trigger] levels[d]@[k]).has_exe && payload_in(levels, 0) == Some(levels[d]@[k].path@) && forall|j: int|
                0 <= j < k ==> !(#[trigger] levels[d]@[j]).has_exe,
        d >= 3 ==> payload_in(levels, 0) is None,
{
    if d < 3 {
        payload_reaches(levels, d, 0);
        found_is_first(levels[d]@, 0);
        let path = found_in(levels[d]@, 0)->0;
        let k = choose|k: int|
            0 <= k < levels[d]@.len() && (#[trigger] levels[d]@[k]).has_exe && levels[d]@[k].path@ == path && forall|j: int|
                0 <= j < k ==> !(#[trigger] levels[d]@[j]).has_exe;
        assert(levels[d]@[k].has_exe && payload_in(levels, 0) == Some(levels[d]@[k].path@));
    } else {
        payload_stops(levels, d, 0);
    }
}

proof fn payload_reaches(levels: Seq<Vec<Candidate>>, d: int, e: int)
    requires
        0 <= e <= d < levels.len(),
        d < 3,
        forall|e: int, j: int| 0 <= e < d && 0 <= j < levels[e]@.len() ==> !(#[trigger] levels[e]@[j]).has_exe,
        exists|k: int| 0 <= k < levels[d]@.len() && (#[trigger] levels[d]@[k]).has_exe,
    ensures
        found_in(levels[d]@, 0) is Some,
        payload_in(levels, e) == found_in(levels[d]@, 0),
    decreases d - e,
{
    found_is_first(levels[d]@, 0);
    if e < d {
        found_is_first(levels[e]@, 0);
        payload_reaches(levels, d, e + 1);
    }
}

proof fn payload_stops(levels: Seq<Vec<Candidate>>, d: int, e: int)
    requires
        0 <= e <= 3 <= d < levels.len(),
        forall|e: int, j: int| 0 <= e < d && 0 <= j < levels[e]@.len() ==> !(#[trigger] levels[e]@[j]).has_exe,
    ensures
        payload_in(levels, e) is None,
    decreases 3 - e,
{
    if e < 3 {
        found_is_first(levels[e]@, 0);
        payload_stops(levels, d, e + 1);
    }
}

/// A request that begins starts from nothing: no data, the size and the hash of its release, and no URL
/// request yet.
pub proof fn a_request_starts_from_nothing(p: Pending, id: u64, kind: Kind, version: Seq<char>, sha256: Seq<char>, total: u64, now: i64)
    requires
        is_fresh(p, id, kind, version, sha256, total, now),
    ensures
        p.id == id && p.kind == kind && p.version@ == version && p.expected_sha256@ == sha256,
        p.received == 0 && p.body@.len() == 0 && !p.requested,
        p.size == total && p.total == total && p.last_progress == now,
{
}

/// What can be downloaded is the archive of the release that the last check found, where it named one.
pub proof fn only_a_found_release_is_downloaded(state: Update, release: Release, asset: Asset)
    ensures
        downloadable(state) == Some((release, asset)) <==> state.latest == Some(release) && release.asset == Some(asset),
        state.latest is None ==> downloadable(state) is None,
{
}

/// The size of a transfer is the one that it announces, once it does.
pub proof fn an_announced_size_counts(p: Pending, total: i64)
    ensures
        total > 0 ==> known_total(p, total) == total,
        total <= 0 ==> known_total(p, total) == p.total,
{
}

/// The waits: the first check after 8 s, a check that takes 20 s or a download that takes half an hour has
/// failed, progress is reported every 400 ms, and a file is tried ten times.
pub proof fn the_waits_of_an_update()
    ensures
        CHECK_DELAY_MS == 8_000,
        MANIFEST_TIMEOUT_MS == 20_000,
        DOWNLOAD_TIMEOUT_MS == 30 * 60 * 1000,
        PROGRESS_EVERY_MS == 400,
        COPY_ATTEMPTS == 10,
{
}

/// Updates are looked for unless the environment forbids it: the variable against them, with anything but `0`, or
/// a test run.
pub proof fn the_environment_can_forbid_updates(v: Seq<char>, other: Option<Seq<char>>)
    ensures
        allowed_by(None, None),
        allowed_by(Some("0"@), None),
        v != "0"@ ==> !allowed_by(Some(v), other),
        !allowed_by(other, Some("1"@)),
        v != "1"@ ==> allowed_by(None, Some(v)),
{
}

/// After the start there is one look for updates, and only where they are allowed.
pub proof fn one_look_follows_the_start(state: Update)
    ensures
        !state.checked ==> startup_check(state, true) is Some && startup_check(state, true)->0 == CHECK_DELAY_MS,
        state.checked ==> startup_check(state, true) is None,
        startup_check(state, false) is None,
{
}

} // verus!
