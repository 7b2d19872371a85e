use vstd::prelude::*;
use crate::error::LoadError;
use crate::limiter::PermitPool;

verus! {

/// What the caller does next on behalf of a load.
#[derive(Debug, Clone, Copy, PartialEq, Eq, Structural)]
pub enum Action {
    /// Start the write for task `index` of wave `wave` (it holds a permit).
    Dispatch(usize, usize),
    /// Wait for one started write to finish and report it.
    AwaitOne,
    /// Every write of every wave succeeded.
    Done,
    /// A write failed: stop waiting and start nothing more.
    Abort,
}

/// Runs the writes of a load wave by wave.
///
/// Waves run strictly one after another: no task of a wave starts before every
/// task of the previous wave has finished. Within a wave, tasks start in order
/// while a permit is free. The first reported failure aborts the load.
#[derive(Debug)]
pub struct WaveScheduler {
    waves: Vec<usize>,
    pool: PermitPool,
    wave: usize,
    next: usize,
    finished: usize,
    failed: bool,
}

/// The state of a scheduler.
pub struct SchedState {
    /// The number of tasks in each wave.
    pub waves: Seq<usize>,
    /// How many writes may be in flight at once.
    pub concurrency: nat,
    /// Writes started and not yet reported.
    pub in_flight: nat,
    /// The current wave (the number of waves once all are over).
    pub wave: nat,
    /// The next task of the current wave to start.
    pub next: nat,
    /// Tasks of the current wave whose outcome has been reported.
    pub finished: nat,
    /// A failure has been reported.
    pub failed: bool,
}

impl SchedState {
    pub open spec fn wf(self) -> bool {
        &&& 1 <= self.concurrency
        &&& self.waves.len() <= usize::MAX
        &&& self.in_flight <= self.concurrency
        &&& self.wave <= self.waves.len()
        &&& self.finished + self.in_flight == self.next
        &&& self.wave < self.waves.len() ==> self.next <= self.waves[self.wave as int]
        &&& self.wave == self.waves.len() ==> self.next == 0
    }
}

/// The first wave at or after `w` that has a task, or the number of waves.
pub open spec fn first_open(waves: Seq<usize>, w: int) -> int
    decreases waves.len() - w,
{
    if w < 0 || w >= waves.len() {
        waves.len() as int
    } else if waves[w] > 0 {
        w
    } else {
        first_open(waves, w + 1)
    }
}

/// The next action of a scheduler in state `s`, and its state afterwards.
pub open spec fn step(s: SchedState) -> (SchedState, Action) {
    if s.failed {
        (s, Action::Abort)
    } else if s.wave >= s.waves.len() {
        (s, Action::Done)
    } else if s.next < s.waves[s.wave as int] && s.in_flight < s.concurrency {
        (
            SchedState { next: s.next + 1, in_flight: s.in_flight + 1, ..s },
            Action::Dispatch(s.wave as usize, s.next as usize),
        )
    } else if s.in_flight > 0 {
        (s, Action::AwaitOne)
    } else {
        let w = first_open(s.waves, s.wave as int + 1);
        if w >= s.waves.len() {
            (SchedState { wave: s.waves.len(), next: 0, finished: 0, ..s }, Action::Done)
        } else {
            (
                SchedState { wave: w as nat, next: 1, finished: 0, in_flight: 1, ..s },
                Action::Dispatch(w as usize, 0),
            )
        }
    }
}

/// The state after a started write is reported: its permit comes back, and a
/// failure marks the load as failed. With nothing in flight nothing changes.
pub open spec fn completed(s: SchedState, ok: bool) -> SchedState {
    if s.in_flight == 0 {
        s
    } else if ok {
        SchedState { in_flight: (s.in_flight - 1) as nat, finished: s.finished + 1, ..s }
    } else {
        SchedState { in_flight: (s.in_flight - 1) as nat, finished: s.finished + 1, failed: true, ..s }
    }
}

/// The first open wave at or after `w` is within bounds and has a task.
proof fn lemma_first_open(waves: Seq<usize>, w: int)
    requires
        0 <= w,
    ensures
        w <= first_open(waves, w) <= waves.len() || (w > waves.len() && first_open(waves, w)
            == waves.len()),
        first_open(waves, w) < waves.len() ==> waves[first_open(waves, w)] > 0,
    decreases waves.len() - w,
{
    if w < waves.len() && waves[w] == 0 {
        lemma_first_open(waves, w + 1);
    }
}

/// The concurrency bound: a well-formed scheduler never has more writes in
/// flight than its concurrency allows, and deciding the next action or taking
/// a report keeps it well formed with the same concurrency, so the bound holds
/// at every point of a load.
pub proof fn lemma_concurrency_bound(s: SchedState, ok: bool)
    requires
        s.wf(),
    ensures
        s.in_flight <= s.concurrency,
        step(s).0.wf(),
        step(s).0.concurrency == s.concurrency,
        step(s).0.in_flight <= s.concurrency,
        completed(s, ok).wf(),
        completed(s, ok).concurrency == s.concurrency,
        completed(s, ok).in_flight <= s.concurrency,
{
    if !s.failed && s.wave < s.waves.len() && !(s.next < s.waves[s.wave as int] && s.in_flight
        < s.concurrency) && s.in_flight == 0 {
        lemma_first_open(s.waves, s.wave as int + 1);
    }
}

/// Fail-fast: once a failure is reported the scheduler only answers `Abort`
/// and starts nothing more, whatever is reported afterwards. A write of a later
/// wave starts only when every write of the current wave has been reported and
/// none failed; `Done` never follows a failure.
pub proof fn lemma_fail_fast(s: SchedState, ok: bool)
    requires
        s.wf(),
    ensures
        s.failed ==> step(s) == (s, Action::Abort),
        s.failed ==> completed(s, ok).failed,
        s.in_flight > 0 && !ok ==> completed(s, ok).failed && step(completed(s, ok)).1
            == Action::Abort,
        step(s).1 matches Action::Dispatch(w, i) ==> !s.failed && (w as nat == s.wave || (s.wave
            < w && i == 0 && s.in_flight == 0 && s.finished == s.waves[s.wave as int])),
        step(s).1 == Action::Done ==> !s.failed,
{
    if !s.failed && s.wave < s.waves.len() && !(s.next < s.waves[s.wave as int] && s.in_flight
        < s.concurrency) && s.in_flight == 0 {
        lemma_first_open(s.waves, s.wave as int + 1);
    }
}

impl View for WaveScheduler {
    type V = SchedState;

    closed spec fn view(&self) -> SchedState {
        SchedState {
            waves: self.waves@,
            concurrency: self.pool@.capacity,
            in_flight: self.pool@.held() as nat,
            wave: self.wave as nat,
            next: self.next as nat,
            finished: self.finished as nat,
            failed: self.failed,
        }
    }
}

impl WaveScheduler {
    /// The scheduler is in a consistent state.
    pub closed spec fn valid(&self) -> bool {
        &&& self.pool@.wf()
        &&& self@.wf()
    }

    /// A scheduler for waves of the given sizes with at most `concurrency`
    /// writes in flight; a concurrency of zero is refused.
    pub fn new(waves: Vec<usize>, concurrency: usize) -> (r: Result<WaveScheduler, LoadError>)
        ensures
            concurrency == 0 ==> r == Err::<WaveScheduler, LoadError>(
                LoadError::Configuration(concurrency),
            ),
            concurrency > 0 ==> (r matches Ok(s) && s.valid() && s@.wf() && s@ == SchedState {
                waves: waves@,
                concurrency: concurrency as nat,
                in_flight: 0,
                wave: 0,
                next: 0,
                finished: 0,
                failed: false,
            }),
    {
        let pool = match PermitPool::new(concurrency) {
            Ok(p) => p,
            Err(e) => return Err(e),
        };
        let count = waves.len();
        assert(waves@.len() == count as nat);
        let s = WaveScheduler { waves, pool, wave: 0, next: 0, finished: 0, failed: false };
        assert(s@.wf()) by {
            if s@.waves.len() == 0 {
                assert(s@.wave == s@.waves.len());
            }
        };
        Ok(s)
    }

    /// Decides what the caller does next.
    pub fn next_action(&mut self) -> (r: Action)
        requires
            old(self).valid(),
        ensures
            final(self).valid(),
            final(self)@.wf(),
            (final(self)@, r) == step(old(self)@),
    {
        if self.failed {
            return Action::Abort;
        }
        if self.wave >= self.waves.len() {
            return Action::Done;
        }
        if self.next < self.waves[self.wave] {
            if self.pool.try_acquire() {
                let a = Action::Dispatch(self.wave, self.next);
                self.next = self.next + 1;
                return a;
            }
        }
        if self.pool.held() > 0 {
            return Action::AwaitOne;
        }
        let mut w: usize = self.wave + 1;
        while w < self.waves.len() && self.waves[w] == 0
            invariant
                self.wave < w <= self.waves@.len(),
                first_open(self.waves@, self.wave as int + 1) == first_open(self.waves@, w as int),
            decreases self.waves.len() - w,
        {
            w = w + 1;
        }
        self.wave = w;
        self.finished = 0;
        if w >= self.waves.len() {
            self.next = 0;
            Action::Done
        } else {
            self.pool.try_acquire();
            self.next = 1;
            Action::Dispatch(w, 0)
        }
    }

    /// Takes the report of one started write: `ok` when it succeeded.
    pub fn complete(&mut self, ok: bool)
        requires
            old(self).valid(),
        ensures
            final(self).valid(),
            final(self)@.wf(),
            final(self)@ == completed(old(self)@, ok),
    {
        if self.pool.held() == 0 {
            return;
        }
        self.pool.release();
        self.finished = self.finished + 1;
        if !ok {
            self.failed = true;
        }
    }

    /// Whether a failure has been reported.
    pub fn has_failed(&self) -> (r: bool)
        ensures
            r == self@.failed,
    {
        self.failed
    }

    /// How many started writes have not been reported yet.
    pub fn in_flight(&self) -> (r: usize)
        requires
            self.valid(),
        ensures
            r == self@.in_flight,
    {
        self.pool.held()
    }
}

} // verus!
