//! The command collector's bookkeeping: which threads are live, what the
//! watcher of a spawned command does on each event, and how a failing
//! command's standard error becomes items.
use vstd::prelude::*;

use vstd::utf8::valid_utf8;
use crate::item::{built_from, Item, SendRawOrBuild};
use crate::lines::{lines_of, split_lines, views};

verus! {

/// Where one ingestion-related thread stands.
#[derive(Clone, Copy, Debug, PartialEq, Eq, Structural)]
pub enum Phase {
    /// Asked for, not yet running.
    Spawned,
    /// Counted as live.
    Running,
    /// Its work, cleanup included, is over.
    Done,
}

pub open spec fn running_count(phases: Seq<Phase>) -> nat
    decreases phases.len(),
{
    if phases.len() == 0 {
        0
    } else {
        running_count(phases.drop_last()) + (if phases.last() == Phase::Running { 1nat } else { 0nat })
    }
}

/// The protocol of the live-thread count, as a model: the count beside the
/// phase of each thread ever spawned. Running threads keep a shared atomic
/// counter by this protocol (raise on start, before any work; lower once,
/// after all cleanup); this type states and proves what the count then
/// tells a caller.
pub struct LifecycleTracker {
    phases: Vec<Phase>,
    active: usize,
}

proof fn lemma_running_count_bound(phases: Seq<Phase>)
    ensures
        running_count(phases) <= phases.len(),
    decreases phases.len(),
{
    if phases.len() > 0 {
        lemma_running_count_bound(phases.drop_last());
    }
}

proof fn lemma_running_count_update(phases: Seq<Phase>, i: int, p: Phase)
    requires
        0 <= i < phases.len(),
    ensures
        running_count(phases.update(i, p)) + (if phases[i] == Phase::Running { 1nat } else { 0nat })
            == running_count(phases) + (if p == Phase::Running { 1nat } else { 0nat }),
    decreases phases.len(),
{
    let u = phases.update(i, p);
    if i == phases.len() - 1 {
        assert(u.drop_last() =~= phases.drop_last());
    } else {
        assert(u.drop_last() =~= phases.drop_last().update(i, p));
        lemma_running_count_update(phases.drop_last(), i, p);
    }
}

proof fn lemma_running_zero(phases: Seq<Phase>)
    ensures
        running_count(phases) == 0 <==> forall|i: int| 0 <= i < phases.len() ==> phases[i] != Phase::Running,
    decreases phases.len(),
{
    if phases.len() > 0 {
        lemma_running_zero(phases.drop_last());
        if running_count(phases) == 0 {
            assert forall|i: int| 0 <= i < phases.len() implies phases[i] != Phase::Running by {
                if i < phases.len() - 1 {
                    assert(phases[i] == phases.drop_last()[i]);
                }
            }
        } else if forall|i: int| 0 <= i < phases.len() ==> phases[i] != Phase::Running {
            assert forall|i: int| 0 <= i < phases.drop_last().len() implies phases.drop_last()[i]
                != Phase::Running by {
                assert(phases[i] == phases.drop_last()[i]);
            }
            assert(phases[phases.len() - 1] != Phase::Running);
        }
    }
}

impl LifecycleTracker {
    pub closed spec fn phases_view(&self) -> Seq<Phase> {
        self.phases@
    }

    pub closed spec fn active_view(&self) -> nat {
        self.active as nat
    }

    /// The count is the number of threads that run.
    pub closed spec fn wf(&self) -> bool {
        self.active as nat == running_count(self.phases@)
    }

    pub fn new() -> (r: Self)
        ensures
            r.wf(),
            r.phases_view().len() == 0,
            r.active_view() == 0,
    {
        LifecycleTracker { phases: Vec::new(), active: 0 }
    }

    /// Records a thread about to be spawned; returns its number.
    pub fn register(&mut self) -> (id: usize)
        requires
            old(self).wf(),
            old(self).phases_view().len() < usize::MAX,
        ensures
            final(self).wf(),
            id == old(self).phases_view().len(),
            final(self).phases_view() == old(self).phases_view().push(Phase::Spawned),
            final(self).active_view() == old(self).active_view(),
    {
        let id = self.phases.len();
        let ghost before = self.phases@;
        self.phases.push(Phase::Spawned);
        proof {
            assert(self.phases@.drop_last() =~= before);
        }
        id
    }

    /// The thread `id` has begun: it is counted before doing any work.
    pub fn start(&mut self, id: usize)
        requires
            old(self).wf(),
            id < old(self).phases_view().len(),
            old(self).phases_view()[id as int] == Phase::Spawned,
        ensures
            final(self).wf(),
            final(self).phases_view() == old(self).phases_view().update(id as int, Phase::Running),
            final(self).active_view() == old(self).active_view() + 1,
    {
        proof {
            lemma_running_count_update(self.phases@, id as int, Phase::Running);
            lemma_running_count_bound(self.phases@.update(id as int, Phase::Running));
        }
        let n = self.phases.len();
        assert(self.active < n);
        self.phases.set(id, Phase::Running);
        self.active = self.active + 1;
    }

    /// The thread `id` has finished all its work, cleanup included.
    pub fn finish(&mut self, id: usize)
        requires
            old(self).wf(),
            id < old(self).phases_view().len(),
            old(self).phases_view()[id as int] == Phase::Running,
        ensures
            final(self).wf(),
            final(self).phases_view() == old(self).phases_view().update(id as int, Phase::Done),
            final(self).active_view() + 1 == old(self).active_view(),
    {
        proof {
            lemma_running_count_update(self.phases@, id as int, Phase::Done);
        }
        self.phases.set(id, Phase::Done);
        self.active = self.active - 1;
    }

    /// How many threads are live.
    pub fn active(&self) -> (r: usize)
        requires
            self.wf(),
        ensures
            r == running_count(self.phases_view()),
    {
        self.active
    }

    /// Whether no thread is live.
    pub fn all_stopped(&self) -> (r: bool)
        requires
            self.wf(),
        ensures
            r <==> forall|i: int| 0 <= i < self.phases_view().len() ==> self.phases_view()[i] != Phase::Running,
    {
        proof {
            lemma_running_zero(self.phases@);
        }
        self.active == 0
    }
}

/// Once every spawned thread has been seen to start (the spawn rendezvous),
/// the count of live threads is zero exactly when every thread, cleanup
/// included, is done.
pub proof fn lemma_zero_iff_all_done(t: LifecycleTracker)
    requires
        t.wf(),
        forall|i: int| 0 <= i < t.phases_view().len() ==> t.phases_view()[i] != Phase::Spawned,
    ensures
        t.active_view() == 0 <==> forall|i: int| 0 <= i < t.phases_view().len() ==> t.phases_view()[i] == Phase::Done,
{
    lemma_running_zero(t.phases_view());
}

/// What the child's status reported once it was killed and waited for.
#[derive(Clone, Copy, Debug, PartialEq, Eq, Structural)]
pub enum ExitState {
    /// It exited; `true` when with success.
    Exited(bool),
    /// It reports no exit yet.
    NotExited,
    /// Its status could not be read.
    Unknown,
}

/// Whether the command counts as failed.
pub open spec fn failed(st: ExitState) -> bool {
    match st {
        ExitState::Exited(ok) => !ok,
        ExitState::NotExited => true,
        ExitState::Unknown => false,
    }
}

/// Who asked the watcher to stop.
#[derive(Clone, Copy, Debug, PartialEq, Eq, Structural)]
pub enum CancelSource {
    /// The ingestion thread, at the end of its input or of its consumer.
    IngestionDone,
    /// The caller.
    Caller,
}

#[derive(Clone, Copy, Debug, PartialEq, Eq, Structural)]
pub enum WatcherEvent {
    /// A value arrived on the cancellation channel.
    Cancel(CancelSource),
    /// The child was killed and waited for.
    Reaped(ExitState),
}

#[derive(Clone, Copy, Debug, PartialEq, Eq, Structural)]
pub enum WatcherState {
    /// Blocked on the cancellation channel.
    Waiting,
    /// Killing the child and waiting for it.
    Reaping,
    /// Finished: the child is reaped.
    Stopped,
}

#[derive(Clone, Copy, Debug, PartialEq, Eq, Structural)]
pub enum WatcherAction {
    /// Kill the child and wait for it.
    KillAndReap,
    /// Send the child's standard error as items, then stop.
    SurfaceErrors,
    /// Stop.
    Stop,
    /// Nothing to do.
    Ignore,
}

/// The watcher's next state and action.
pub open spec fn watcher_next(s: WatcherState, e: WatcherEvent, show_error: bool) -> (WatcherState, WatcherAction) {
    match (s, e) {
        (WatcherState::Waiting, WatcherEvent::Cancel(_)) => (WatcherState::Reaping, WatcherAction::KillAndReap),
        (WatcherState::Reaping, WatcherEvent::Reaped(st)) => (
            WatcherState::Stopped,
            if show_error && failed(st) { WatcherAction::SurfaceErrors } else { WatcherAction::Stop },
        ),
        _ => (s, WatcherAction::Ignore),
    }
}

/// Whether the command counts as failed.
pub fn has_error(st: ExitState) -> (r: bool)
    ensures
        r == failed(st),
{
    match st {
        ExitState::Exited(ok) => !ok,
        ExitState::NotExited => true,
        ExitState::Unknown => false,
    }
}

/// The watcher's decision on one event.
pub fn watcher_step(s: WatcherState, e: WatcherEvent, show_error: bool) -> (r: (WatcherState, WatcherAction))
    ensures
        r == watcher_next(s, e, show_error),
{
    match (s, e) {
        (WatcherState::Waiting, WatcherEvent::Cancel(_)) => (WatcherState::Reaping, WatcherAction::KillAndReap),
        (WatcherState::Reaping, WatcherEvent::Reaped(st)) => (
            WatcherState::Stopped,
            if show_error && has_error(st) { WatcherAction::SurfaceErrors } else { WatcherAction::Stop },
        ),
        _ => (s, WatcherAction::Ignore),
    }
}

/// A cancellation, whoever sends it, makes a waiting watcher kill and reap
/// the child; once reaped, whatever its status, the watcher stops, and
/// later cancellations are absorbed.
pub proof fn lemma_cancel_reaps(src: CancelSource, st: ExitState, later: CancelSource, show_error: bool)
    ensures
        watcher_next(WatcherState::Waiting, WatcherEvent::Cancel(src), show_error) == (
            WatcherState::Reaping,
            WatcherAction::KillAndReap,
        ),
        watcher_next(WatcherState::Reaping, WatcherEvent::Reaped(st), show_error).0 == WatcherState::Stopped,
        watcher_next(WatcherState::Reaping, WatcherEvent::Cancel(later), show_error).0 == WatcherState::Reaping,
        watcher_next(WatcherState::Stopped, WatcherEvent::Cancel(later), show_error) == (
            WatcherState::Stopped,
            WatcherAction::Ignore,
        ),
{
}

/// What replacing malformed UTF-8 in a byte sequence yields.
pub uninterp spec fn lossy_utf8(b: Seq<u8>) -> Seq<u8>;

/// Relies on String::from_utf8_lossy: malformed sequences become U+FFFD,
/// and well-formed input comes back unchanged.
#[verifier::external_body]
fn lossy_text(b: &[u8]) -> (r: Vec<u8>)
    ensures
        r@ == lossy_utf8(b@),
        valid_utf8(b@) ==> r@ == b@,
{
    String::from_utf8_lossy(b).into_owned().into_bytes()
}

/// The items that surface a failing command's standard error: one raw item
/// per line of its text.
pub fn error_items(stderr: &[u8]) -> (r: Vec<Item>)
    ensures
        r@.len() == lines_of(lossy_utf8(stderr@), 10u8).len(),
        forall|i: int| 0 <= i < r@.len() ==> built_from(#[trigger] r@[i], lines_of(lossy_utf8(stderr@), 10u8)[i], SendRawOrBuild::Raw),
{
    let text = lossy_text(stderr);
    let lines = split_lines(text.as_slice(), 10u8);
    let ghost ls = views(lines@);
    let mut out: Vec<Item> = Vec::new();
    let mut i: usize = 0;
    while i < lines.len()
        invariant
            i <= lines@.len(),
            ls == lines_of(lossy_utf8(stderr@), 10u8),
            ls.len() == lines@.len(),
            ls == views(lines@),
            out@.len() == i,
            forall|k: int| 0 <= k < i ==> built_from(#[trigger] out@[k], ls[k], SendRawOrBuild::Raw),
        decreases lines@.len() - i,
    {
        let line = vstd::slice::slice_to_vec(lines[i].as_slice());
        proof {
            assert(ls[i as int] == lines@[i as int]@);
        }
        out.push(Item::Raw(line));
        i = i + 1;
    }
    out
}

} // verus!
