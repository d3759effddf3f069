//! The launch scheduler: one unit of work per entry, launches staggered
//! by the configured delay, every handle joined in launch order, and the
//! first failure aggregated.
//!
//! The machine itself holds no thread or process: it is driven from
//! outside. [`Scheduler::next_action`] says what to do next (launch,
//! sleep, wait on the next handle, or, in dry-run mode, report the
//! intent), and [`Scheduler::advance`] takes the step, fed with the
//! outcome of a wait. Launch order, join order, and the first-failure
//! slot are all part of the machine and proved here.

use vstd::prelude::*;

use crate::duration::{Duration, DurationError, parse_time, spec_parse_duration};
use crate::entries::{entries_view, lines_view, read_entries, spec_read_entries, Entry};

verus! {

/// A launched unit failed to start or could not be observed.
pub struct LaunchError {
    /// What the failed unit reported.
    pub message: String,
}

impl LaunchError {
    /// Wrap a report from a failed unit.
    pub fn new(message: String) -> (e: LaunchError)
        ensures
            e.message == message,
    {
        LaunchError { message }
    }
}

impl Clone for LaunchError {
    /// A clone carries the same message.
    fn clone(&self) -> (e: LaunchError)
        ensures
            e == *self,
    {
        LaunchError { message: self.message.clone() }
    }
}

/// Where a run stands: launching entries in file order, then joining
/// every handle in launch order, then done.
#[derive(Clone, Copy, PartialEq, Eq, Structural, Debug)]
pub enum Phase {
    Launching,
    Joining,
    Done,
}

/// What the driver must do next. `num` counts from 1, as entry `num` of
/// `count`.
#[derive(Clone, Copy, PartialEq, Eq, Structural, Debug)]
pub enum Action {
    /// Start entry `num` without blocking and record its handle.
    Launch { num: usize, count: usize },
    /// Dry run: report that entry `num` would be launched.
    NoteWouldLaunch { num: usize, count: usize },
    /// Block for the full configured delay, after launching entry `num`.
    Sleep { num: usize, count: usize },
    /// Dry run: report the sleep intent after entry `num`.
    NoteWouldSleep { num: usize, count: usize },
    /// Block on handle `num`, the one launched `num`-th.
    Wait { num: usize, count: usize },
    /// Dry run: report that the handles would be joined.
    NoteWouldJoin { count: usize },
    /// The run is over; the result is available.
    Finished,
}

/// The first failure among the join outcomes, in join order.
pub open spec fn spec_first_err(rs: Seq<Option<LaunchError>>) -> Option<LaunchError>
    decreases rs.len(),
{
    if rs.len() == 0 {
        None
    } else if rs[0] is Some {
        rs[0]
    } else {
        spec_first_err(rs.drop_first())
    }
}

/// Appending an outcome keeps an already-found first failure, and
/// otherwise takes the new outcome.
proof fn lemma_first_err_push(rs: Seq<Option<LaunchError>>, r: Option<LaunchError>)
    ensures
        spec_first_err(rs.push(r)) == (if spec_first_err(rs) is Some {
            spec_first_err(rs)
        } else {
            r
        }),
    decreases rs.len(),
{
    if rs.len() == 0 {
        assert(rs.push(r)[0] == r);
        assert(rs.push(r).drop_first() =~= Seq::<Option<LaunchError>>::empty());
        assert(spec_first_err(Seq::<Option<LaunchError>>::empty()) is None);
        assert(spec_first_err(rs) is None);
    } else {
        assert(rs.push(r)[0] == rs[0]);
        assert(rs.push(r).drop_first() =~= rs.drop_first().push(r));
        lemma_first_err_push(rs.drop_first(), r);
    }
}

/// `spec_first_err` is `None` exactly when every outcome succeeded, and
/// otherwise returns the earliest failure.
pub proof fn lemma_first_err_characterization(rs: Seq<Option<LaunchError>>)
    ensures
        match spec_first_err(rs) {
            None => forall|i: int| 0 <= i < rs.len() ==> rs[i] is None,
            Some(e) => exists|i: int|
                0 <= i < rs.len() && rs[i] == Some(e) && (forall|j: int| 0 <= j < i ==> rs[j] is None),
        },
    decreases rs.len(),
{
    if rs.len() == 0 {
    } else if rs[0] is Some {
        let e = rs[0].unwrap();
        assert(0 <= 0 < rs.len() && rs[0] == Some(e) && (forall|j: int| 0 <= j < 0 ==> rs[j] is None));
    } else {
        lemma_first_err_characterization(rs.drop_first());
        assert forall|j: int| 1 <= j < rs.len() implies rs[j] == rs.drop_first()[j - 1] by {}
        match spec_first_err(rs.drop_first()) {
            None => {},
            Some(e) => {
                let i = choose|i: int|
                    0 <= i < rs.drop_first().len() && rs.drop_first()[i] == Some(e) && (forall|j: int|
                        0 <= j < i ==> rs.drop_first()[j] is None);
                assert(0 <= i + 1 < rs.len() && rs[i + 1] == Some(e) && (forall|j: int|
                    0 <= j < i + 1 ==> rs[j] is None));
            },
        }
    }
}

/// The launch scheduler's state. The driver owns the real handles; their
/// join outcomes are mirrored in the ghost `wait_results`, and the ghost
/// `launches` and `sleeps` count the launch and sleep steps taken.
pub struct Scheduler {
    /// The entries, in file order; launch order and join order follow it.
    pub entries: Vec<Entry>,
    /// The delay enforced after every launch attempt, when configured.
    pub delay: Option<Duration>,
    /// The run-wide browser override; wins over per-entry overrides.
    pub browser: Option<String>,
    /// Report intended actions only: no launch, no sleep, no join.
    pub dry_run: bool,
    /// Where the run stands.
    pub phase: Phase,
    /// How many entries are fully processed (launch attempt and any sleep).
    pub next_entry: usize,
    /// The current entry was launched but its sleep step is still owed.
    pub pending_sleep: bool,
    /// How many handles were joined so far.
    pub next_join: usize,
    /// The earliest failure among the joins so far, set at most once.
    pub first_failure: Option<LaunchError>,
    /// The join outcomes received so far, in join order.
    pub wait_results: Ghost<Seq<Option<LaunchError>>>,
    /// How many launch steps were taken (dry runs take none).
    pub launches: Ghost<nat>,
    /// How many sleep steps were taken (in dry runs: sleep intents reported).
    pub sleeps: Ghost<nat>,
}

impl Scheduler {
    /// The state invariant: every reachable state satisfies it.
    pub open spec fn wf(self) -> bool {
        &&& match self.phase {
            Phase::Launching => {
                &&& self.next_entry < self.entries.len()
                &&& self.next_join == 0
            },
            Phase::Joining => {
                &&& self.next_entry == self.entries.len()
                &&& !self.pending_sleep
                &&& if self.dry_run {
                    self.next_join == 0
                } else {
                    self.next_join < self.entries.len()
                }
            },
            Phase::Done => {
                &&& self.next_entry == self.entries.len()
                &&& !self.pending_sleep
                &&& if self.dry_run {
                    self.next_join == 0
                } else {
                    self.next_join == self.entries.len()
                }
            },
        }
        &&& self.pending_sleep ==> self.phase is Launching && self.delay is Some
        &&& self.next_join == self.wait_results@.len()
        &&& self.dry_run ==> self.next_join == 0
        &&& self.first_failure == spec_first_err(self.wait_results@)
        &&& self.launches@ == (if self.dry_run {
            0
        } else if self.pending_sleep {
            self.next_entry + 1
        } else {
            self.next_entry as int
        })
        &&& self.sleeps@ == (if self.delay is Some {
            self.next_entry as int
        } else {
            0
        })
    }

    /// What the driver must do in this state.
    pub open spec fn spec_action(self) -> Action {
        match self.phase {
            Phase::Launching => if self.pending_sleep {
                if self.dry_run {
                    Action::NoteWouldSleep {
                        num: (self.next_entry + 1) as usize,
                        count: self.entries.len(),
                    }
                } else {
                    Action::Sleep { num: (self.next_entry + 1) as usize, count: self.entries.len() }
                }
            } else {
                if self.dry_run {
                    Action::NoteWouldLaunch {
                        num: (self.next_entry + 1) as usize,
                        count: self.entries.len(),
                    }
                } else {
                    Action::Launch {
                        num: (self.next_entry + 1) as usize,
                        count: self.entries.len(),
                    }
                }
            },
            Phase::Joining => if self.dry_run {
                Action::NoteWouldJoin { count: self.entries.len() }
            } else {
                Action::Wait { num: (self.next_join + 1) as usize, count: self.entries.len() }
            },
            Phase::Done => Action::Finished,
        }
    }

    /// The transition relation: how one step changes the state. The
    /// configuration never changes; the step follows `pre.spec_action()`,
    /// with `waited` carrying a wait's outcome.
    pub open spec fn steps_to(
        pre: Scheduler,
        post: Scheduler,
        waited: Option<Option<LaunchError>>,
    ) -> bool {
        &&& post.entries == pre.entries
        &&& post.delay == pre.delay
        &&& post.browser == pre.browser
        &&& post.dry_run == pre.dry_run
        &&& match pre.phase {
            Phase::Launching => {
                &&& post.next_join == pre.next_join
                &&& post.wait_results@ == pre.wait_results@
                &&& post.first_failure == pre.first_failure
                &&& if !pre.pending_sleep {
                    // the launch step of entry `pre.next_entry`
                    &&& post.launches@ == (if pre.dry_run {
                        pre.launches@ as int
                    } else {
                        (pre.launches@ + 1) as int
                    })
                    &&& post.sleeps@ == pre.sleeps@
                    &&& if pre.delay is Some {
                        &&& post.pending_sleep
                        &&& post.next_entry == pre.next_entry
                        &&& post.phase is Launching
                    } else {
                        &&& !post.pending_sleep
                        &&& post.next_entry == pre.next_entry + 1
                        &&& post.phase == (if post.next_entry == pre.entries.len() {
                            Phase::Joining
                        } else {
                            Phase::Launching
                        })
                    }
                } else {
                    // the sleep step after entry `pre.next_entry`
                    &&& post.launches@ == pre.launches@
                    &&& post.sleeps@ == pre.sleeps@ + 1
                    &&& !post.pending_sleep
                    &&& post.next_entry == pre.next_entry + 1
                    &&& post.phase == (if post.next_entry == pre.entries.len() {
                        Phase::Joining
                    } else {
                        Phase::Launching
                    })
                }
            },
            Phase::Joining => {
                &&& post.next_entry == pre.next_entry
                &&& post.pending_sleep == pre.pending_sleep
                &&& post.launches@ == pre.launches@
                &&& post.sleeps@ == pre.sleeps@
                &&& if pre.dry_run {
                    // the join is itself skipped and reported
                    &&& post.phase is Done
                    &&& post.next_join == pre.next_join
                    &&& post.wait_results@ == pre.wait_results@
                    &&& post.first_failure == pre.first_failure
                } else {
                    // handle `pre.next_join` was joined, with outcome `waited`
                    &&& waited is Some
                    &&& post.next_join == pre.next_join + 1
                    &&& post.wait_results@ == pre.wait_results@.push(waited.unwrap())
                    &&& post.first_failure == (if pre.first_failure is Some {
                        pre.first_failure
                    } else {
                        waited.unwrap()
                    })
                    &&& post.phase == (if post.next_join == pre.entries.len() {
                        Phase::Done
                    } else {
                        Phase::Joining
                    })
                }
            },
            Phase::Done => false,
        }
    }

    /// How many steps remain until the run is over: every step takes
    /// exactly one off, so a driver loop terminates.
    pub open spec fn steps_remaining(self) -> int {
        match self.phase {
            Phase::Launching => {
                let per_entry: int = if self.delay is Some {
                    2
                } else {
                    1
                };
                let entry_steps = per_entry * (self.entries.len() - self.next_entry) - (
                if self.pending_sleep {
                    1int
                } else {
                    0int
                });
                let join_steps: int = if self.dry_run {
                    1
                } else {
                    self.entries.len() as int
                };
                entry_steps + join_steps
            },
            Phase::Joining => if self.dry_run {
                1
            } else {
                self.entries.len() - self.next_join
            },
            Phase::Done => 0,
        }
    }

    /// Set up a run over the given entries. An empty list leaves nothing
    /// to launch: a dry run still reports the join intent, a real run is
    /// already done.
    pub fn new(
        entries: Vec<Entry>,
        delay: Option<Duration>,
        browser: Option<String>,
        dry_run: bool,
    ) -> (s: Scheduler)
        ensures
            s.wf(),
            s.entries == entries,
            s.delay == delay,
            s.browser == browser,
            s.dry_run == dry_run,
            s.next_entry == 0,
            s.next_join == 0,
            !s.pending_sleep,
            s.first_failure is None,
            s.wait_results@.len() == 0,
            s.launches@ == 0,
            s.sleeps@ == 0,
            s.phase == (if entries.len() == 0 {
                if dry_run {
                    Phase::Joining
                } else {
                    Phase::Done
                }
            } else {
                Phase::Launching
            }),
    {
        let phase = if entries.len() == 0 {
            if dry_run {
                Phase::Joining
            } else {
                Phase::Done
            }
        } else {
            Phase::Launching
        };
        Scheduler {
            entries,
            delay,
            browser,
            dry_run,
            phase,
            next_entry: 0,
            pending_sleep: false,
            next_join: 0,
            first_failure: None,
            wait_results: Ghost(Seq::empty()),
            launches: Ghost(0),
            sleeps: Ghost(0),
        }
    }

    /// The run is over.
    pub fn is_finished(&self) -> (b: bool)
        ensures
            b == (self.phase is Done),
    {
        match self.phase {
            Phase::Done => true,
            _ => false,
        }
    }

    /// What the driver must do next.
    pub fn next_action(&self) -> (a: Action)
        requires
            self.wf(),
            !(self.phase is Done),
        ensures
            a == self.spec_action(),
    {
        let count = self.entries.len();
        match self.phase {
            Phase::Launching => {
                let num = self.next_entry + 1;
                if self.pending_sleep {
                    if self.dry_run {
                        Action::NoteWouldSleep { num, count }
                    } else {
                        Action::Sleep { num, count }
                    }
                } else {
                    if self.dry_run {
                        Action::NoteWouldLaunch { num, count }
                    } else {
                        Action::Launch { num, count }
                    }
                }
            },
            Phase::Joining => {
                if self.dry_run {
                    Action::NoteWouldJoin { count }
                } else {
                    Action::Wait { num: self.next_join + 1, count }
                }
            },
            Phase::Done => Action::Finished,
        }
    }

    /// The URL of entry `i`, handed to the launch capability as is.
    pub fn launch_url(&self, i: usize) -> (u: &String)
        requires
            i < self.entries.len(),
        ensures
            u@ == self.entries@[i as int]@.url,
    {
        &self.entries[i].url
    }

    /// The browser entry `i` resolves to.
    pub open spec fn spec_resolved_browser(self, i: int) -> Option<Seq<char>> {
        if self.browser is Some {
            Some(self.browser.unwrap()@)
        } else {
            self.entries@[i]@.browser
        }
    }

    /// The browser for entry `i`: the run-wide override if one was given,
    /// else the entry's own, else none (the default browser).
    pub fn launch_browser(&self, i: usize) -> (b: Option<&String>)
        requires
            i < self.entries.len(),
        ensures
            match b {
                Some(s) => self.spec_resolved_browser(i as int) == Some(s@),
                None => self.spec_resolved_browser(i as int) is None,
            },
    {
        match &self.browser {
            Some(b) => Some(b),
            None => match &self.entries[i].browser {
                Some(b) => Some(b),
                None => None,
            },
        }
    }

    /// Take the step that `next_action` named. A wait's outcome is handed
    /// in through `waited` (`None` for an entry that launched and ran to
    /// completion, the failure otherwise); every other action passes
    /// `waited == None`.
    pub fn advance(&mut self, waited: Option<Option<LaunchError>>)
        requires
            old(self).wf(),
            !(old(self).phase is Done),
            waited is Some <==> old(self).spec_action() is Wait,
        ensures
            final(self).wf(),
            Scheduler::steps_to(*old(self), *final(self), waited),
            final(self).steps_remaining() == old(self).steps_remaining() - 1,
    {
        match self.phase {
            Phase::Launching => {
                if !self.pending_sleep {
                    if !self.dry_run {
                        self.launches = Ghost((self.launches@ + 1) as nat);
                    }
                    if self.delay.is_some() {
                        self.pending_sleep = true;
                    } else {
                        self.next_entry = self.next_entry + 1;
                        if self.next_entry == self.entries.len() {
                            self.phase = Phase::Joining;
                        }
                    }
                } else {
                    self.sleeps = Ghost((self.sleeps@ + 1) as nat);
                    self.pending_sleep = false;
                    self.next_entry = self.next_entry + 1;
                    if self.next_entry == self.entries.len() {
                        self.phase = Phase::Joining;
                    }
                }
            },
            Phase::Joining => {
                if self.dry_run {
                    self.phase = Phase::Done;
                } else {
                    let r = waited.unwrap();
                    proof {
                        lemma_first_err_push(self.wait_results@, r);
                    }
                    self.next_join = self.next_join + 1;
                    self.wait_results = Ghost(self.wait_results@.push(r));
                    if self.first_failure.is_none() {
                        self.first_failure = r;
                    }
                    if self.next_join == self.entries.len() {
                        self.phase = Phase::Done;
                    }
                }
            },
            Phase::Done => {},
        }
    }

    /// The run's outcome: success when no join failed, else the first
    /// failure in join order.
    pub fn result(&self) -> (r: Result<(), LaunchError>)
        requires
            self.wf(),
            self.phase is Done,
        ensures
            match r {
                Ok(()) => spec_first_err(self.wait_results@) is None,
                Err(e) => spec_first_err(self.wait_results@) == Some(e),
            },
    {
        match &self.first_failure {
            None => Ok(()),
            Some(e) => Err(e.clone()),
        }
    }
}

/// Law: a dry run is pure reporting. It never asks for a launch, a sleep,
/// or a wait, takes no launch step, and records no join outcome, so no
/// failure can arise.
pub proof fn lemma_dry_run_is_pure_reporting(s: Scheduler)
    requires
        s.wf(),
        s.dry_run,
    ensures
        !(s.spec_action() is Launch),
        !(s.spec_action() is Sleep),
        !(s.spec_action() is Wait),
        s.launches@ == 0,
        s.wait_results@.len() == 0,
        s.first_failure is None,
{
}

/// Law: the schedule is deterministic. From equal states, with equal wait
/// outcomes, the next action and every component of the successor state
/// agree, so two runs over the same input report the same sequence of
/// intentions.
pub proof fn lemma_step_deterministic(
    pre: Scheduler,
    a: Scheduler,
    b: Scheduler,
    waited: Option<Option<LaunchError>>,
)
    requires
        Scheduler::steps_to(pre, a, waited),
        Scheduler::steps_to(pre, b, waited),
    ensures
        a.spec_action() == b.spec_action(),
        a.phase == b.phase,
        a.next_entry == b.next_entry,
        a.pending_sleep == b.pending_sleep,
        a.next_join == b.next_join,
        a.first_failure == b.first_failure,
        a.wait_results@ == b.wait_results@,
        a.launches@ == b.launches@,
        a.sleeps@ == b.sleeps@,
{
}

/// Law: a finished real run joined exactly as many handles as it
/// launched, one per entry, and reports success exactly when every join
/// outcome was a success.
pub proof fn lemma_success_after_all_joined(s: Scheduler)
    requires
        s.wf(),
        s.phase is Done,
        !s.dry_run,
    ensures
        s.launches@ == s.entries@.len(),
        s.next_join == s.entries@.len(),
        s.wait_results@.len() == s.entries@.len(),
        s.first_failure == spec_first_err(s.wait_results@),
        s.first_failure is None <==> (forall|i: int|
            0 <= i < s.wait_results@.len() ==> s.wait_results@[i] is None),
{
    lemma_first_err_characterization(s.wait_results@);
}

/// Law: when a finished real run reports a failure, it is the earliest
/// one in join order, and every handle was still joined: later failures
/// and successes were all observed, none abandoned.
pub proof fn lemma_first_failure_reported(s: Scheduler)
    requires
        s.wf(),
        s.phase is Done,
        !s.dry_run,
        s.first_failure is Some,
    ensures
        s.wait_results@.len() == s.entries@.len(),
        exists|i: int|
            0 <= i < s.wait_results@.len() && #[trigger] s.wait_results@[i] == s.first_failure
                && (forall|j: int| 0 <= j < i ==> s.wait_results@[j] is None),
{
    lemma_first_err_characterization(s.wait_results@);
    let e = s.first_failure.unwrap();
    let i = choose|i: int|
        0 <= i < s.wait_results@.len() && s.wait_results@[i] == Some(e) && (forall|j: int|
            0 <= j < i ==> s.wait_results@[j] is None);
    assert(0 <= i < s.wait_results@.len() && s.wait_results@[i] == s.first_failure && (forall|j: int|
        0 <= j < i ==> s.wait_results@[j] is None));
}

/// Law: once launching is over, a sleep step stands behind every entry
/// whenever a delay is configured — real sleeps of the full delay, or, in
/// a dry run, reported sleep intents — and none was taken otherwise.
pub proof fn lemma_sleep_per_entry(s: Scheduler)
    requires
        s.wf(),
        !(s.phase is Launching),
    ensures
        s.delay is Some ==> s.sleeps@ == s.entries@.len(),
        s.delay is None ==> s.sleeps@ == 0,
{
}

/// Configure a whole run: parse the delay specification (when one is
/// given), read the entries out of the source's lines, and return the
/// scheduler ready to drive. A bad delay specification aborts before
/// anything else, exactly as `spec_parse_duration` rejects it.
pub fn handle_urls_file(
    lines: &Vec<String>,
    sleep_time: Option<String>,
    browser: Option<String>,
    dry_run: bool,
) -> (r: Result<Scheduler, DurationError>)
    ensures
        match r {
            Ok(s) => {
                &&& s.wf()
                &&& match sleep_time {
                    Some(t) => s.delay is Some && s.delay.unwrap().wf() && spec_parse_duration(t@)
                        == Ok::<int, DurationError>(s.delay.unwrap().as_nanos()),
                    None => s.delay is None,
                }
                &&& entries_view(s.entries@) == spec_read_entries(lines_view(lines@))
                &&& s.browser == browser
                &&& s.dry_run == dry_run
                &&& s.next_entry == 0
                &&& s.next_join == 0
                &&& !s.pending_sleep
                &&& s.first_failure is None
                &&& s.wait_results@.len() == 0
                &&& s.launches@ == 0
                &&& s.sleeps@ == 0
                &&& s.phase == (if s.entries@.len() == 0 {
                    if dry_run {
                        Phase::Joining
                    } else {
                        Phase::Done
                    }
                } else {
                    Phase::Launching
                })
            },
            Err(e) => sleep_time is Some && spec_parse_duration(sleep_time.unwrap()@) == Err::<
                int,
                DurationError,
            >(e),
        },
{
    let delay = match &sleep_time {
        Some(t) => match parse_time(t.as_str()) {
            Ok(d) => Some(d),
            Err(e) => {
                return Err(e);
            },
        },
        None => None,
    };
    let entries = read_entries(lines);
    Ok(Scheduler::new(entries, delay, browser, dry_run))
}

} // verus!
