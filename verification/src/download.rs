use vstd::prelude::*;

use crate::errors::SideloadError;
use crate::text::str_eq;
use crate::version::copy_bytes;

verus! {

// The download manager is a state machine per (name, version) request.
// The library decides; the driver performs the I/O: it executes each
// returned action against the host manager's cache or the network and
// hands the observed event back to `step`. Every cache action is done
// under the host manager's file lock; the fetch happens outside any lock.

/// What the driver observed after performing the last action.
pub enum FetchEvent {
    /// The archive file was deleted; a file that was already missing is
    /// not an error.
    Deleted,
    /// The cache lookup found a valid archive, already unpacked.
    CacheReady,
    /// The cache lookup found no archive; the registry hands the URL to
    /// fetch it from.
    CacheMiss { url: String },
    /// The cache lookup found an archive but its unpack/checksum failed.
    CacheInvalid,
    /// The transfer succeeded with these archive bytes.
    HttpOk { body: Vec<u8> },
    /// The transfer failed: the HTTP status for a rejected request, or 0
    /// when no response arrived at all.
    HttpFailed { status: u16 },
    /// The archive bytes were written to the cache target, all or nothing.
    WriteOk,
    /// The write did not complete; no partial file remains visible.
    WriteFailed,
}

/// What the driver must do next.
pub enum StepAction {
    /// Delete the archive at the cache target path, under the cache lock.
    DeleteArchive,
    /// Ask the cache whether the archive is present and valid, under the
    /// cache lock; this also unpacks a valid archive.
    QueryCache,
    /// Send the authenticated GET request, outside any lock.
    SendRequest { url: String },
    /// Write the body to the cache target path atomically, under the
    /// cache lock.
    WriteArchive { body: Vec<u8> },
    /// The request is finished; nothing more to do.
    Finish,
}

/// Why a single package's fetch failed.
#[derive(Clone, Copy, Debug, PartialEq, Eq, Structural)]
pub enum FetchFailure {
    /// Network failure or non-success HTTP status; no retry is made, so
    /// the operator can correct headers or credentials.
    Transport { status: u16 },
    /// The archive failed the unpack/checksum step; the bad archive has
    /// been deleted so a later run starts clean.
    Validation,
}

impl FetchFailure {
    /// The error kind this failure reports at the component boundary.
    pub fn as_error(&self) -> (r: SideloadError)
        ensures
            r == match self {
                FetchFailure::Transport { status } => SideloadError::Transport(*status),
                FetchFailure::Validation => SideloadError::Validation,
            },
    {
        match self {
            FetchFailure::Transport { status } => SideloadError::Transport(*status),
            FetchFailure::Validation => SideloadError::Validation,
        }
    }
}

/// How a single package's fetch ended.
#[derive(Clone, Copy, Debug, PartialEq, Eq, Structural)]
pub enum FetchOutcome {
    /// A valid archive was already cached; no network request was made.
    AlreadyCached,
    /// The archive was fetched, written and validated.
    Downloaded,
    /// The fetch failed; the batch goes on with the other packages.
    Failed { failure: FetchFailure },
}

/// Where one fetch request stands.
pub enum FetchPhase {
    /// Force mode: the existing archive is being deleted before anything
    /// else.
    ForceClear,
    /// Waiting for the cache to say whether the archive is already there.
    Check,
    /// Waiting for the transfer from the given URL.
    Fetch { url: String },
    /// Waiting for the archive bytes to be written to the cache target.
    Persist { body: Vec<u8> },
    /// Waiting for the cache to re-check the just-written archive.
    Validate,
    /// Waiting for the corrupt archive's deletion before failing.
    Cleanup { failure: FetchFailure },
    /// Terminal.
    Done { outcome: FetchOutcome },
}

/// The mathematical shape of an event.
#[verifier::ext_equal]
pub ghost enum EventView {
    Deleted,
    CacheReady,
    CacheMiss { url: Seq<char> },
    CacheInvalid,
    HttpOk { body: Seq<u8> },
    HttpFailed { status: u16 },
    WriteOk,
    WriteFailed,
}

/// The mathematical shape of an action.
#[verifier::ext_equal]
pub ghost enum ActionView {
    DeleteArchive,
    QueryCache,
    SendRequest { url: Seq<char> },
    WriteArchive { body: Seq<u8> },
    Finish,
}

/// The mathematical shape of a phase.
#[verifier::ext_equal]
pub ghost enum PhaseView {
    ForceClear,
    Check,
    Fetch { url: Seq<char> },
    Persist { body: Seq<u8> },
    Validate,
    Cleanup { failure: FetchFailure },
    Done { outcome: FetchOutcome },
}

impl View for FetchEvent {
    type V = EventView;

    open spec fn view(&self) -> EventView {
        match self {
            FetchEvent::Deleted => EventView::Deleted,
            FetchEvent::CacheReady => EventView::CacheReady,
            FetchEvent::CacheMiss { url } => EventView::CacheMiss { url: url@ },
            FetchEvent::CacheInvalid => EventView::CacheInvalid,
            FetchEvent::HttpOk { body } => EventView::HttpOk { body: body@ },
            FetchEvent::HttpFailed { status } => EventView::HttpFailed { status: *status },
            FetchEvent::WriteOk => EventView::WriteOk,
            FetchEvent::WriteFailed => EventView::WriteFailed,
        }
    }
}

impl View for StepAction {
    type V = ActionView;

    open spec fn view(&self) -> ActionView {
        match self {
            StepAction::DeleteArchive => ActionView::DeleteArchive,
            StepAction::QueryCache => ActionView::QueryCache,
            StepAction::SendRequest { url } => ActionView::SendRequest { url: url@ },
            StepAction::WriteArchive { body } => ActionView::WriteArchive { body: body@ },
            StepAction::Finish => ActionView::Finish,
        }
    }
}

impl View for FetchPhase {
    type V = PhaseView;

    open spec fn view(&self) -> PhaseView {
        match self {
            FetchPhase::ForceClear => PhaseView::ForceClear,
            FetchPhase::Check => PhaseView::Check,
            FetchPhase::Fetch { url } => PhaseView::Fetch { url: url@ },
            FetchPhase::Persist { body } => PhaseView::Persist { body: body@ },
            FetchPhase::Validate => PhaseView::Validate,
            FetchPhase::Cleanup { failure } => PhaseView::Cleanup { failure: *failure },
            FetchPhase::Done { outcome } => PhaseView::Done { outcome: *outcome },
        }
    }
}

/// Where a request starts, and its first action: force mode deletes any
/// existing archive before anything else; otherwise the cache is asked
/// first, and a valid cached archive means no network call at all.
pub open spec fn machine_init(force: bool) -> (PhaseView, ActionView) {
    if force {
        (PhaseView::ForceClear, ActionView::DeleteArchive)
    } else {
        (PhaseView::Check, ActionView::QueryCache)
    }
}

/// A finished request takes no further step.
pub open spec fn is_terminal(p: PhaseView) -> bool {
    p is Done
}

/// One transition: what the observed event makes of the current phase,
/// and what the driver must do next. An event that does not answer the
/// phase's pending action leaves the phase unchanged and re-issues its
/// action.
pub open spec fn step_spec(p: PhaseView, e: EventView) -> (PhaseView, ActionView) {
    match p {
        PhaseView::ForceClear => match e {
            EventView::Deleted => (PhaseView::Check, ActionView::QueryCache),
            _ => (PhaseView::ForceClear, ActionView::DeleteArchive),
        },
        PhaseView::Check => match e {
            EventView::CacheReady => (
                PhaseView::Done { outcome: FetchOutcome::AlreadyCached },
                ActionView::Finish,
            ),
            EventView::CacheMiss { url } => (
                PhaseView::Fetch { url },
                ActionView::SendRequest { url },
            ),
            EventView::CacheInvalid => (
                PhaseView::Cleanup { failure: FetchFailure::Validation },
                ActionView::DeleteArchive,
            ),
            _ => (PhaseView::Check, ActionView::QueryCache),
        },
        PhaseView::Fetch { url } => match e {
            EventView::HttpOk { body } => (
                PhaseView::Persist { body },
                ActionView::WriteArchive { body },
            ),
            EventView::HttpFailed { status } => (
                PhaseView::Done { outcome: FetchOutcome::Failed {
                    failure: FetchFailure::Transport { status },
                } },
                ActionView::Finish,
            ),
            _ => (PhaseView::Fetch { url }, ActionView::SendRequest { url }),
        },
        PhaseView::Persist { body } => match e {
            EventView::WriteOk => (PhaseView::Validate, ActionView::QueryCache),
            EventView::WriteFailed => (
                PhaseView::Cleanup { failure: FetchFailure::Validation },
                ActionView::DeleteArchive,
            ),
            _ => (PhaseView::Persist { body }, ActionView::WriteArchive { body }),
        },
        PhaseView::Validate => match e {
            EventView::CacheReady => (
                PhaseView::Done { outcome: FetchOutcome::Downloaded },
                ActionView::Finish,
            ),
            EventView::CacheMiss { url } => (
                PhaseView::Cleanup { failure: FetchFailure::Validation },
                ActionView::DeleteArchive,
            ),
            EventView::CacheInvalid => (
                PhaseView::Cleanup { failure: FetchFailure::Validation },
                ActionView::DeleteArchive,
            ),
            _ => (PhaseView::Validate, ActionView::QueryCache),
        },
        PhaseView::Cleanup { failure } => match e {
            EventView::Deleted => (
                PhaseView::Done { outcome: FetchOutcome::Failed { failure } },
                ActionView::Finish,
            ),
            _ => (PhaseView::Cleanup { failure }, ActionView::DeleteArchive),
        },
        PhaseView::Done { outcome } => (PhaseView::Done { outcome }, ActionView::Finish),
    }
}

/// Where a request starts, and its first action.
pub fn machine_start(force: bool) -> (r: (FetchPhase, StepAction))
    ensures
        (r.0@, r.1@) == machine_init(force),
{
    if force {
        (FetchPhase::ForceClear, StepAction::DeleteArchive)
    } else {
        (FetchPhase::Check, StepAction::QueryCache)
    }
}

/// One transition of the download state machine.
pub fn step(phase: FetchPhase, event: FetchEvent) -> (r: (FetchPhase, StepAction))
    ensures
        (r.0@, r.1@) == step_spec(phase@, event@),
{
    match phase {
        FetchPhase::ForceClear => match event {
            FetchEvent::Deleted => (FetchPhase::Check, StepAction::QueryCache),
            _ => (FetchPhase::ForceClear, StepAction::DeleteArchive),
        },
        FetchPhase::Check => match event {
            FetchEvent::CacheReady => (
                FetchPhase::Done { outcome: FetchOutcome::AlreadyCached },
                StepAction::Finish,
            ),
            FetchEvent::CacheMiss { url } => {
                let phase_url = url.clone();
                (FetchPhase::Fetch { url: phase_url }, StepAction::SendRequest { url })
            },
            FetchEvent::CacheInvalid => (
                FetchPhase::Cleanup { failure: FetchFailure::Validation },
                StepAction::DeleteArchive,
            ),
            _ => (FetchPhase::Check, StepAction::QueryCache),
        },
        FetchPhase::Fetch { url } => match event {
            FetchEvent::HttpOk { body } => {
                let phase_body = copy_bytes(&body);
                (FetchPhase::Persist { body: phase_body }, StepAction::WriteArchive { body })
            },
            FetchEvent::HttpFailed { status } => (
                FetchPhase::Done { outcome: FetchOutcome::Failed {
                    failure: FetchFailure::Transport { status },
                } },
                StepAction::Finish,
            ),
            _ => {
                let action_url = url.clone();
                (FetchPhase::Fetch { url }, StepAction::SendRequest { url: action_url })
            },
        },
        FetchPhase::Persist { body } => match event {
            FetchEvent::WriteOk => (FetchPhase::Validate, StepAction::QueryCache),
            FetchEvent::WriteFailed => (
                FetchPhase::Cleanup { failure: FetchFailure::Validation },
                StepAction::DeleteArchive,
            ),
            _ => {
                let action_body = copy_bytes(&body);
                (FetchPhase::Persist { body }, StepAction::WriteArchive { body: action_body })
            },
        },
        FetchPhase::Validate => match event {
            FetchEvent::CacheReady => (
                FetchPhase::Done { outcome: FetchOutcome::Downloaded },
                StepAction::Finish,
            ),
            FetchEvent::CacheMiss { url: _ } => (
                FetchPhase::Cleanup { failure: FetchFailure::Validation },
                StepAction::DeleteArchive,
            ),
            FetchEvent::CacheInvalid => (
                FetchPhase::Cleanup { failure: FetchFailure::Validation },
                StepAction::DeleteArchive,
            ),
            _ => (FetchPhase::Validate, StepAction::QueryCache),
        },
        FetchPhase::Cleanup { failure } => match event {
            FetchEvent::Deleted => (
                FetchPhase::Done { outcome: FetchOutcome::Failed { failure } },
                StepAction::Finish,
            ),
            _ => (FetchPhase::Cleanup { failure }, StepAction::DeleteArchive),
        },
        FetchPhase::Done { outcome } => (FetchPhase::Done { outcome }, StepAction::Finish),
    }
}

/// Fold the machine over a sequence of observed events, collecting the
/// actions it asks for; a terminal phase takes no further step.
pub open spec fn run_steps(p: PhaseView, events: Seq<EventView>) -> (PhaseView, Seq<ActionView>)
    decreases events.len(),
{
    if events.len() == 0 || is_terminal(p) {
        (p, seq![])
    } else {
        let next = step_spec(p, events[0]);
        let rest = run_steps(next.0, events.drop_first());
        (rest.0, seq![next.1] + rest.1)
    }
}

/// A whole run: where the machine ends and every action it asked for,
/// the initial action included.
pub open spec fn machine_run(force: bool, events: Seq<EventView>) -> (PhaseView, Seq<ActionView>) {
    let init = machine_init(force);
    let rest = run_steps(init.0, events);
    (rest.0, seq![init.1] + rest.1)
}

/// Some action in the list writes to the cache.
pub open spec fn has_write(acts: Seq<ActionView>) -> bool {
    exists|k: int| 0 <= k < acts.len() && acts[k] is WriteArchive
}

/// Some event in the list is a successful transfer.
pub open spec fn has_http_ok(events: Seq<EventView>) -> bool {
    exists|j: int| 0 <= j < events.len() && events[j] is HttpOk
}

/// From any phase that is not already holding a body to write, the
/// machine never writes to the cache unless a transfer succeeded: no
/// partial or speculative archive ever reaches the cache.
pub proof fn lemma_write_needs_http_ok(p: PhaseView, events: Seq<EventView>)
    requires
        !(p is Persist),
    ensures
        has_write(run_steps(p, events).1) ==> has_http_ok(events),
    decreases events.len(),
{
    if events.len() == 0 || is_terminal(p) {
    } else {
        let e0 = events[0];
        let next = step_spec(p, e0);
        let rest = run_steps(next.0, events.drop_first());
        if next.0 is Persist {
            assert(e0 is HttpOk);
        } else {
            lemma_write_needs_http_ok(next.0, events.drop_first());
            if has_write(run_steps(p, events).1) {
                assert(!(next.1 is WriteArchive));
                let k = choose|k: int|
                    0 <= k < run_steps(p, events).1.len() && run_steps(p, events).1[k]
                        is WriteArchive;
                assert(rest.1[k - 1] is WriteArchive);
                if has_http_ok(events.drop_first()) {
                    let j = choose|j: int|
                        0 <= j < events.drop_first().len() && events.drop_first()[j] is HttpOk;
                    assert(events[j + 1] is HttpOk);
                }
            }
        }
    }
}

/// Same, for a whole run from the start: the cache is written only after
/// a successful transfer, with or without force mode.
pub proof fn lemma_run_write_needs_http_ok(force: bool, events: Seq<EventView>)
    ensures
        has_write(machine_run(force, events).1) ==> has_http_ok(events),
{
    lemma_write_needs_http_ok(machine_init(force).0, events);
    let init = machine_init(force);
    let rest = run_steps(init.0, events);
    if has_write(machine_run(force, events).1) {
        let k = choose|k: int|
            0 <= k < machine_run(force, events).1.len() && machine_run(force, events).1[k]
                is WriteArchive;
        assert(k > 0);
        assert(rest.1[k - 1] is WriteArchive);
    }
}

/// An archive the cache already holds is never fetched again: a run
/// without force whose first cache answer is "ready" ends cached at
/// once — one cache query, no request, no write, whatever else happens.
pub proof fn lemma_cached_no_refetch(events: Seq<EventView>)
    requires
        events.len() >= 1,
        events[0] == EventView::CacheReady,
    ensures
        machine_run(false, events).0 == (PhaseView::Done {
            outcome: FetchOutcome::AlreadyCached,
        }),
        machine_run(false, events).1 =~= seq![ActionView::QueryCache, ActionView::Finish],
{
    reveal_with_fuel(run_steps, 3);
    let done = PhaseView::Done { outcome: FetchOutcome::AlreadyCached };
    assert(step_spec(PhaseView::Check, events[0]) == (done, ActionView::Finish));
    assert(run_steps(done, events.drop_first().drop_first()).1 =~= Seq::<ActionView>::empty());
}

/// The full download path: cache miss, successful transfer, write,
/// revalidation. The machine ends Downloaded, and the one write carries
/// exactly the body the transfer returned.
pub proof fn lemma_download_roundtrip(url: Seq<char>, body: Seq<u8>, rest: Seq<EventView>)
    ensures
        machine_run(
            false,
            seq![
                EventView::CacheMiss { url },
                EventView::HttpOk { body },
                EventView::WriteOk,
                EventView::CacheReady,
            ] + rest,
        ).0 == (PhaseView::Done { outcome: FetchOutcome::Downloaded }),
        machine_run(
            false,
            seq![
                EventView::CacheMiss { url },
                EventView::HttpOk { body },
                EventView::WriteOk,
                EventView::CacheReady,
            ] + rest,
        ).1 =~= seq![
            ActionView::QueryCache,
            ActionView::SendRequest { url },
            ActionView::WriteArchive { body },
            ActionView::QueryCache,
            ActionView::Finish,
        ],
{
    reveal_with_fuel(run_steps, 6);
    let events = seq![
        EventView::CacheMiss { url },
        EventView::HttpOk { body },
        EventView::WriteOk,
        EventView::CacheReady,
    ] + rest;
    assert(events[0] == (EventView::CacheMiss { url }));
    assert(events.drop_first()[0] == (EventView::HttpOk { body }));
    assert(events.drop_first().drop_first()[0] == EventView::WriteOk);
    assert(events.drop_first().drop_first().drop_first()[0] == EventView::CacheReady);
    let done = PhaseView::Done { outcome: FetchOutcome::Downloaded };
    let tail4 = events.drop_first().drop_first().drop_first().drop_first();
    assert(run_steps(done, tail4).1 =~= Seq::<ActionView>::empty());
}

/// Force mode against a failing transport: the existing archive is
/// deleted first, nothing is ever written, and the run ends with the
/// transport error. The machine is a function of its events, so a second
/// run fails the same way and the cache stays empty after either.
pub proof fn lemma_force_transport_failure(url: Seq<char>, status: u16, rest: Seq<EventView>)
    ensures
        machine_run(
            true,
            seq![
                EventView::Deleted,
                EventView::CacheMiss { url },
                EventView::HttpFailed { status },
            ] + rest,
        ).0 == (PhaseView::Done { outcome: FetchOutcome::Failed {
            failure: FetchFailure::Transport { status },
        } }),
        machine_run(
            true,
            seq![
                EventView::Deleted,
                EventView::CacheMiss { url },
                EventView::HttpFailed { status },
            ] + rest,
        ).1 =~= seq![
            ActionView::DeleteArchive,
            ActionView::QueryCache,
            ActionView::SendRequest { url },
            ActionView::Finish,
        ],
{
    reveal_with_fuel(run_steps, 5);
    let events = seq![
        EventView::Deleted,
        EventView::CacheMiss { url },
        EventView::HttpFailed { status },
    ] + rest;
    assert(events[0] == EventView::Deleted);
    assert(events.drop_first()[0] == (EventView::CacheMiss { url }));
    assert(events.drop_first().drop_first()[0] == (EventView::HttpFailed { status }));
    let done = PhaseView::Done { outcome: FetchOutcome::Failed {
        failure: FetchFailure::Transport { status },
    } };
    let tail3 = events.drop_first().drop_first().drop_first();
    assert(run_steps(done, tail3).1 =~= Seq::<ActionView>::empty());
}

/// How many outcomes of a batch failed.
pub open spec fn failed_count(s: Seq<FetchOutcome>) -> int
    decreases s.len(),
{
    if s.len() == 0 {
        0
    } else {
        let tail_failed: int = if s.last() is Failed {
            1
        } else {
            0
        };
        failed_count(s.drop_last()) + tail_failed
    }
}

/// No outcome failed exactly when the failure count is zero.
pub proof fn lemma_failed_count_zero(s: Seq<FetchOutcome>)
    ensures
        failed_count(s) >= 0,
        failed_count(s) == 0 <==> (forall|i: int| 0 <= i < s.len() ==> !(s[i] is Failed)),
    decreases s.len(),
{
    if s.len() > 0 {
        lemma_failed_count_zero(s.drop_last());
        if failed_count(s) == 0 {
            assert forall|i: int| 0 <= i < s.len() implies !(s[i] is Failed) by {
                if i < s.len() - 1 {
                    assert(s.drop_last()[i] == s[i]);
                }
            }
        } else {
            if forall|i: int| 0 <= i < s.len() ==> !(s[i] is Failed) {
                assert forall|i: int| 0 <= i < s.len() - 1 implies !(s.drop_last()[i]
                    is Failed) by {
                    assert(s.drop_last()[i] == s[i]);
                }
            }
        }
    }
}

/// How many packages of a batch failed. A single package's failure does
/// not abort the others; the process exit must be non-zero exactly when
/// this count is not zero.
pub fn batch_failures(outcomes: &Vec<FetchOutcome>) -> (r: usize)
    ensures
        r as int == failed_count(outcomes@),
        (r == 0) <==> (forall|i: int| 0 <= i < outcomes@.len() ==> !(outcomes@[i] is Failed)),
{
    let mut r: usize = 0;
    let mut i: usize = 0;
    proof {
        assert(outcomes@.take(0) =~= Seq::<FetchOutcome>::empty());
    }
    while i < outcomes.len()
        invariant
            0 <= i <= outcomes@.len(),
            r <= i,
            r as int == failed_count(outcomes@.take(i as int)),
        decreases outcomes@.len() - i,
    {
        proof {
            assert(outcomes@.take(i + 1).drop_last() =~= outcomes@.take(i as int));
            assert(outcomes@.take(i + 1).last() == outcomes@[i as int]);
        }
        match outcomes[i] {
            FetchOutcome::Failed { .. } => {
                r = r + 1;
            },
            _ => {},
        }
        i = i + 1;
    }
    proof {
        assert(outcomes@.take(outcomes@.len() as int) =~= outcomes@);
        lemma_failed_count_zero(outcomes@);
    }
    r
}

/// One resolved dependency from the lock file: a concrete package pinned
/// to the registry the source URL names.
pub struct ResolvedPackage {
    pub name: String,
    pub version: String,
    pub source_url: String,
}

/// The mathematical shape of a resolved package.
#[verifier::ext_equal]
pub ghost struct ResolvedView {
    pub name: Seq<char>,
    pub version: Seq<char>,
    pub source_url: Seq<char>,
}

impl View for ResolvedPackage {
    type V = ResolvedView;

    open spec fn view(&self) -> ResolvedView {
        ResolvedView { name: self.name@, version: self.version@, source_url: self.source_url@ }
    }
}

/// The views of a sequence of resolved packages.
pub open spec fn resolved_views(s: Seq<ResolvedPackage>) -> Seq<ResolvedView> {
    s.map_values(|p: ResolvedPackage| p@)
}

/// The texts a vector of strings holds.
pub open spec fn string_views(s: Seq<String>) -> Seq<Seq<char>> {
    s.map_values(|x: String| x@)
}

/// Whether a list of names holds the given name.
fn contains_name(names: &Vec<String>, name: &str) -> (r: bool)
    ensures
        r == string_views(names@).contains(name@),
{
    let mut i: usize = 0;
    while i < names.len()
        invariant
            0 <= i <= names@.len(),
            forall|j: int| 0 <= j < i ==> string_views(names@)[j] != name@,
        decreases names@.len() - i,
    {
        if str_eq(names[i].as_str(), name) {
            assert(string_views(names@)[i as int] == name@);
            return true;
        }
        i = i + 1;
    }
    assert(forall|j: int| 0 <= j < names@.len() ==> string_views(names@)[j] != name@);
    false
}

/// A resolved package is in scope for a command when it is pinned to the
/// target registry's index URL and, if an explicit package list was
/// given, named in it.
pub open spec fn in_scope(
    p: ResolvedView,
    only: Option<Seq<Seq<char>>>,
    index_url: Seq<char>,
) -> bool {
    &&& p.source_url == index_url
    &&& match only {
        Some(names) => names.contains(p.name),
        None => true,
    }
}

/// The view of the optional explicit package list.
pub open spec fn only_views(only: Option<Vec<String>>) -> Option<Seq<Seq<char>>> {
    match only {
        Some(names) => Some(string_views(names@)),
        None => None,
    }
}

/// The resolved packages a command works on, in lock-file order: those
/// pinned to the target registry and, when an explicit list is given,
/// named in it.
pub fn select_packages(
    resolved: &Vec<ResolvedPackage>,
    only: &Option<Vec<String>>,
    index_url: &str,
) -> (r: Vec<ResolvedPackage>)
    ensures
        resolved_views(r@) == resolved_views(resolved@).filter(
            |p: ResolvedView| in_scope(p, only_views(*only), index_url@),
        ),
{
    let ghost views = resolved_views(resolved@);
    let ghost pred = |p: ResolvedView| in_scope(p, only_views(*only), index_url@);
    let mut out: Vec<ResolvedPackage> = Vec::new();
    let mut i: usize = 0;
    proof {
        reveal(Seq::filter);
        assert(views.take(0) =~= Seq::<ResolvedView>::empty());
        assert(resolved_views(out@) =~= views.take(0).filter(pred));
    }
    while i < resolved.len()
        invariant
            0 <= i <= resolved@.len(),
            views == resolved_views(resolved@),
            views.len() == resolved@.len(),
            pred == (|p: ResolvedView| in_scope(p, only_views(*only), index_url@)),
            resolved_views(out@) == views.take(i as int).filter(pred),
        decreases resolved@.len() - i,
    {
        proof {
            reveal(Seq::filter);
            assert(views.take(i + 1).drop_last() =~= views.take(i as int));
            assert(views.take(i + 1).last() == resolved@[i as int]@);
        }
        let matches_url = str_eq(resolved[i].source_url.as_str(), index_url);
        let wanted: bool = match only {
            Some(names) => contains_name(names, resolved[i].name.as_str()),
            None => true,
        };
        if matches_url && wanted {
            let ghost prev = out@;
            let p = &resolved[i];
            out.push(
                ResolvedPackage {
                    name: p.name.clone(),
                    version: p.version.clone(),
                    source_url: p.source_url.clone(),
                },
            );
            proof {
                assert(out@.drop_last() =~= prev);
                assert(resolved_views(out@) =~= resolved_views(prev).push(resolved@[i as int]@));
                assert(pred(views.take(i + 1).last()));
            }
        } else {
            proof {
                assert(!pred(views.take(i + 1).last()));
            }
        }
        i = i + 1;
    }
    proof {
        assert(views.take(resolved@.len() as int) =~= views);
    }
    out
}

} // verus!
