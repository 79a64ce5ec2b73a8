//! The kernel: it owns the process table, the message queue, the virtual
//! filesystem, the console buffer and the wall-clock mirror, and it is the
//! only path by which a process may mutate shared state.
//!
//! The table is kept in strictly ascending pid order; pids are handed out
//! from a counter seeded above the range reserved for well-known system
//! processes. Ghost logs record every pid allocation, every step taken and
//! every message delivered, so the scheduling laws can be stated and proved.

use vstd::prelude::*;
use vstd::string::StringExecFns;
use std::collections::VecDeque;
use crate::process::ProcessBody;
use crate::process::ProcessRecord;
use crate::vfs::fs::SimpleFS;

verus! {

/// The pid counter's seed; dynamically spawned processes get pids above it.
pub const PID_SEED: usize = 1000;

/// Reserved pid of the system clock process.
pub const PID_DEFAULT_SYSTEM_CLOCK: usize = 1;

/// Reserved pid of the system shell process.
pub const PID_DEFAULT_SYSTEM_SHELL: usize = 2;

/// A tagged value delivered over the message bus.
pub enum Message {
    SetWaitingForInput(bool),
    Print(String),
    Kill,
}

/// Mathematical image of [`Message`].
pub enum MessageV {
    SetWaitingForInput(bool),
    Print(Seq<char>),
    Kill,
}

impl View for Message {
    type V = MessageV;

    open spec fn view(&self) -> MessageV {
        match self {
            Message::SetWaitingForInput(b) => MessageV::SetWaitingForInput(*b),
            Message::Print(s) => MessageV::Print(s@),
            Message::Kill => MessageV::Kill,
        }
    }
}

/// The kernel state.
pub struct Kernel {
    /// The console text, append-only from the kernel's perspective; the host
    /// injects keystrokes by appending to it and mirrors it to the screen.
    pub console: String,
    pub last_pid: usize,
    pub processes: Vec<ProcessRecord>,
    pub fs: SimpleFS,
    pub tick_count: u64,
    pub messages: VecDeque<(usize, Message)>,
    pub time: i64,
    pub timestamp: String,
    pub stepping: Option<usize>,
    pub step_killed: bool,
    pub stepped_log: Ghost<Seq<usize>>,
    pub death_log: Ghost<Seq<usize>>,
    pub delivered_log: Ghost<Seq<(usize, MessageV)>>,
    pub assigned_log: Ghost<Seq<usize>>,
}

impl Kernel {
    /// The process table, in ascending pid order.
    pub open spec fn procs(&self) -> Seq<ProcessRecord> {
        self.processes@
    }

    /// The console text as a character sequence.
    pub open spec fn console_text(&self) -> Seq<char> {
        self.console@
    }

    /// The filesystem state.
    pub open spec fn fs_state(&self) -> SimpleFS {
        self.fs
    }

    /// The tick counter.
    pub open spec fn ticks(&self) -> u64 {
        self.tick_count
    }

    /// The pids of the table, in ascending order.
    pub open spec fn pids(&self) -> Seq<usize> {
        self.procs().map_values(|r: ProcessRecord| r.pid)
    }

    /// Whether a process with this pid is schedulable.
    pub open spec fn contains_pid(&self, pid: usize) -> bool {
        exists|i: int| 0 <= i < self.procs().len() && (#[trigger] self.procs()[i]).pid == pid
    }

    /// The last pid handed out (or the seed, before any allocation).
    pub open spec fn last_pid(&self) -> usize {
        self.last_pid
    }

    /// The message queue: (destination pid, message), head first.
    pub open spec fn msgs(&self) -> Seq<(usize, MessageV)> {
        self.messages@.map_values(|m: (usize, Message)| (m.0, m.1@))
    }

    /// The wall-clock mirror, in UNIX-epoch milliseconds.
    pub open spec fn time_spec(&self) -> i64 {
        self.time
    }

    /// The rendered timestamp mirror.
    pub open spec fn timestamp_view(&self) -> Seq<char> {
        self.timestamp@
    }

    /// The pid whose step or handler is currently running, if any.
    pub open spec fn stepping_at(&self) -> Option<usize> {
        self.stepping
    }

    /// Whether the currently running step asked to kill its own process.
    pub open spec fn kill_flag(&self) -> bool {
        self.step_killed
    }

    /// Every pid whose step has ever been invoked, in invocation order.
    pub open spec fn stepped(&self) -> Seq<usize> {
        self.stepped_log@
    }

    /// Every pid whose own step asked for its removal, in request order.
    pub open spec fn died(&self) -> Seq<usize> {
        self.death_log@
    }

    /// Every message ever handed to a live process, in delivery order.
    pub open spec fn delivered(&self) -> Seq<(usize, MessageV)> {
        self.delivered_log@
    }

    /// Every pid ever handed out by the allocator, in allocation order.
    pub open spec fn assigned(&self) -> Seq<usize> {
        self.assigned_log@
    }

    /// Well-formedness: the table is strictly ascending by pid, every table
    /// pid and every allocated pid is at or below the allocation mark, each
    /// record agrees with its process about the pid, the mark never falls
    /// below the seed, allocations are strictly increasing, and the
    /// filesystem index is well-formed.
    pub open spec fn wf(&self) -> bool {
        &&& forall|i: int, j: int|
            0 <= i < j < self.procs().len() ==> (#[trigger] self.procs()[i]).pid < (
            #[trigger] self.procs()[j]).pid
        &&& forall|i: int|
            0 <= i < self.procs().len() ==> (#[trigger] self.procs()[i]).pid <= self.last_pid()
        &&& forall|i: int|
            0 <= i < self.procs().len() ==> (#[trigger] self.procs()[i]).body.pid_spec()
                == self.procs()[i].pid
        &&& forall|i: int|
            0 <= i < self.procs().len() ==> crate::process::body_inv(
                (#[trigger] self.procs()[i]).body,
            )
        &&& self.last_pid() >= PID_SEED
        &&& forall|i: int|
            0 <= i < self.assigned().len() ==> #[trigger] self.assigned()[i] <= self.last_pid()
        &&& forall|i: int, j: int|
            0 <= i < j < self.assigned().len() ==> #[trigger] self.assigned()[i]
                < #[trigger] self.assigned()[j]
        &&& self.fs_state().wf()
    }

    /// Whether the kernel is between steps: no process is being stepped.
    pub open spec fn at_rest(&self) -> bool {
        self.stepping_at() is None
    }
}

/// Everything a kernel holds apart from the process table, the allocator and
/// the kill flag is unchanged.
pub open spec fn frame_sched_only(a: Kernel, b: Kernel) -> bool {
    &&& b.console_text() == a.console_text()
    &&& b.fs_state() == a.fs_state()
    &&& b.ticks() == a.ticks()
    &&& b.msgs() == a.msgs()
    &&& b.time_spec() == a.time_spec()
    &&& b.timestamp_view() == a.timestamp_view()
    &&& b.stepping_at() == a.stepping_at()
    &&& b.stepped() == a.stepped()
    &&& b.delivered() == a.delivered()
}

/// Everything apart from the named piece of state is unchanged.
pub open spec fn frame_all_but_console(a: Kernel, b: Kernel) -> bool {
    &&& b.procs() == a.procs()
    &&& b.died() == a.died()
    &&& b.last_pid() == a.last_pid()
    &&& b.assigned() == a.assigned()
    &&& b.kill_flag() == a.kill_flag()
    &&& b.fs_state() == a.fs_state()
    &&& b.ticks() == a.ticks()
    &&& b.msgs() == a.msgs()
    &&& b.time_spec() == a.time_spec()
    &&& b.timestamp_view() == a.timestamp_view()
    &&& b.stepping_at() == a.stepping_at()
    &&& b.stepped() == a.stepped()
    &&& b.delivered() == a.delivered()
}

/// Everything apart from the message queue is unchanged.
pub open spec fn frame_all_but_msgs(a: Kernel, b: Kernel) -> bool {
    &&& b.procs() == a.procs()
    &&& b.died() == a.died()
    &&& b.last_pid() == a.last_pid()
    &&& b.assigned() == a.assigned()
    &&& b.kill_flag() == a.kill_flag()
    &&& b.console_text() == a.console_text()
    &&& b.fs_state() == a.fs_state()
    &&& b.ticks() == a.ticks()
    &&& b.time_spec() == a.time_spec()
    &&& b.timestamp_view() == a.timestamp_view()
    &&& b.stepping_at() == a.stepping_at()
    &&& b.stepped() == a.stepped()
    &&& b.delivered() == a.delivered()
}

/// Everything apart from the two clock mirrors is unchanged.
pub open spec fn frame_all_but_clock(a: Kernel, b: Kernel) -> bool {
    &&& b.procs() == a.procs()
    &&& b.died() == a.died()
    &&& b.last_pid() == a.last_pid()
    &&& b.assigned() == a.assigned()
    &&& b.kill_flag() == a.kill_flag()
    &&& b.console_text() == a.console_text()
    &&& b.fs_state() == a.fs_state()
    &&& b.ticks() == a.ticks()
    &&& b.msgs() == a.msgs()
    &&& b.stepping_at() == a.stepping_at()
    &&& b.stepped() == a.stepped()
    &&& b.delivered() == a.delivered()
}

impl Kernel {
    /// A fresh kernel: empty table, empty queue, empty console, pid counter
    /// at the seed, storage not yet connected.
    pub fn new() -> (r: Kernel)
        ensures
            r.wf(),
            r.at_rest(),
            !r.kill_flag(),
            r.procs().len() == 0,
            r.msgs().len() == 0,
            r.ticks() == 0,
            r.console_text() == Seq::<char>::empty(),
            r.last_pid() == PID_SEED,
            r.time_spec() == 0,
            r.timestamp_view() == Seq::<char>::empty(),
            r.stepped() == Seq::<usize>::empty(),
            r.died() == Seq::<usize>::empty(),
            r.delivered() == Seq::<(usize, MessageV)>::empty(),
            r.assigned() == Seq::<usize>::empty(),
            r.fs_state().entries().len() == 0,
            !r.fs_state().is_ready(),
    {
        let r = Kernel {
            console: String::new(),
            last_pid: PID_SEED,
            processes: Vec::new(),
            fs: SimpleFS::new(),
            tick_count: 0,
            messages: VecDeque::new(),
            time: 0,
            timestamp: String::new(),
            stepping: Option::None,
            step_killed: false,
            stepped_log: Ghost(Seq::empty()),
            death_log: Ghost(Seq::empty()),
            delivered_log: Ghost(Seq::empty()),
            assigned_log: Ghost(Seq::empty()),
        };
        proof {
            assert(r.msgs() =~= Seq::<(usize, MessageV)>::empty());
        }
        r
    }

    /// Marks the storage adapter as connected; the host calls this once at
    /// startup, after opening the durable store.
    pub fn init(&mut self)
        requires
            old(self).wf(),
        ensures
            final(self).wf(),
            final(self).fs_state().is_ready(),
            final(self).fs_state().entries() == old(self).fs_state().entries(),
            final(self).procs() == old(self).procs(),
            final(self).last_pid() == old(self).last_pid(),
            final(self).assigned() == old(self).assigned(),
            final(self).kill_flag() == old(self).kill_flag(),
            final(self).console_text() == old(self).console_text(),
            final(self).ticks() == old(self).ticks(),
            final(self).msgs() == old(self).msgs(),
            final(self).time_spec() == old(self).time_spec(),
            final(self).timestamp_view() == old(self).timestamp_view(),
            final(self).stepping_at() == old(self).stepping_at(),
            final(self).stepped() == old(self).stepped(),
            final(self).delivered() == old(self).delivered(),
    {
        let ghost pre = *self;
        self.fs.init();
        proof {
            assert(self.procs() == pre.procs());
            assert(self.last_pid() == pre.last_pid());
            assert(self.assigned() == pre.assigned());
            lemma_wf_preserved(pre, *self);
        }
    }

    /// Appends to the message queue; never delivered synchronously.
    pub fn send(&mut self, pid: usize, msg: Message)
        ensures
            final(self).msgs() == old(self).msgs().push((pid, msg@)),
            frame_all_but_msgs(*old(self), *final(self)),
            old(self).wf() ==> final(self).wf(),
    {
        let ghost pre = *self;
        self.messages.push_back((pid, msg));
        proof {
            assert(self.msgs() =~= pre.msgs().push((pid, self.messages@.last().1@)));
            if pre.wf() {
                assert(self.fs_state() == pre.fs_state());
                lemma_wf_preserved(pre, *self);
            }
        }
    }

    /// Appends text to the console and scrolls it into view.
    pub fn print(&mut self, s: &str)
        ensures
            final(self).console_text() == old(self).console_text() + s@,
            frame_all_but_console(*old(self), *final(self)),
            old(self).wf() ==> final(self).wf(),
    {
        let ghost pre = *self;
        self.console.append(s);
        proof {
            if pre.wf() {
                assert(self.procs() == pre.procs());
                assert(self.fs_state() == pre.fs_state());
                lemma_wf_preserved(pre, *self);
            }
        }
    }

    /// Clears the console.
    pub fn clear(&mut self)
        ensures
            final(self).console_text() == Seq::<char>::empty(),
            frame_all_but_console(*old(self), *final(self)),
            old(self).wf() ==> final(self).wf(),
    {
        let ghost pre = *self;
        self.console = String::new();
        proof {
            if pre.wf() {
                assert(self.procs() == pre.procs());
                assert(self.fs_state() == pre.fs_state());
                lemma_wf_preserved(pre, *self);
            }
        }
    }

    /// Sets the wall-clock mirror.
    pub fn set_time(&mut self, time: i64)
        ensures
            final(self).time_spec() == time,
            final(self).timestamp_view() == old(self).timestamp_view(),
            frame_all_but_clock(*old(self), *final(self)),
            old(self).wf() ==> final(self).wf(),
    {
        let ghost pre = *self;
        self.time = time;
        proof {
            if pre.wf() {
                assert(self.procs() == pre.procs());
                assert(self.fs_state() == pre.fs_state());
                lemma_wf_preserved(pre, *self);
            }
        }
    }

    /// The wall-clock mirror.
    pub fn get_time(&self) -> (r: i64)
        ensures
            r == self.time_spec(),
    {
        self.time
    }

    /// Sets the rendered timestamp mirror.
    pub fn set_timestamp(&mut self, timestamp: String)
        ensures
            final(self).timestamp_view() == timestamp@,
            final(self).time_spec() == old(self).time_spec(),
            frame_all_but_clock(*old(self), *final(self)),
            old(self).wf() ==> final(self).wf(),
    {
        let ghost pre = *self;
        self.timestamp = timestamp;
        proof {
            if pre.wf() {
                assert(self.procs() == pre.procs());
                assert(self.fs_state() == pre.fs_state());
                lemma_wf_preserved(pre, *self);
            }
        }
    }

    /// The rendered timestamp mirror.
    pub fn get_timestamp(&self) -> (r: String)
        ensures
            r@ == self.timestamp_view(),
    {
        self.timestamp.clone()
    }

    /// Allocates the next pid. Allocation never reuses a live pid and never
    /// blocks.
    pub fn get_next_pid(&mut self) -> (r: usize)
        requires
            old(self).wf(),
            old(self).last_pid() < usize::MAX,
        ensures
            final(self).wf(),
            r == old(self).last_pid() + 1,
            final(self).last_pid() == r,
            final(self).assigned() == old(self).assigned().push(r),
            final(self).procs() == old(self).procs(),
            final(self).kill_flag() == old(self).kill_flag(),
            final(self).died() == old(self).died(),
            frame_sched_only(*old(self), *final(self)),
            !old(self).contains_pid(r),
    {
        let ghost pre = *self;
        self.last_pid = self.last_pid + 1;
        let r = self.last_pid;
        proof {
            self.assigned_log@ = self.assigned_log@.push(r);
            assert(self.procs() == pre.procs());
            assert(self.fs_state() == pre.fs_state());
            assert forall|i: int| 0 <= i < self.procs().len() implies (
            #[trigger] self.procs()[i]).pid <= self.last_pid() by {
                assert(pre.procs()[i].pid <= pre.last_pid());
            }
            assert forall|i: int| 0 <= i < self.assigned().len() implies #[trigger] self.assigned()[i]
                <= self.last_pid() by {
                if i < pre.assigned().len() {
                    assert(pre.assigned()[i] <= pre.last_pid());
                }
            }
            assert forall|i: int, j: int|
                0 <= i < j < self.assigned().len() implies #[trigger] self.assigned()[i]
                < #[trigger] self.assigned()[j] by {
                if j < pre.assigned().len() {
                } else {
                    if i < pre.assigned().len() {
                        assert(pre.assigned()[i] <= pre.last_pid());
                    }
                }
            }
        }
        r
    }

    /// The number of schedulable processes.
    pub fn proc_count(&self) -> (n: usize)
        ensures
            n == self.procs().len(),
    {
        self.processes.len()
    }

    /// The display name and pid of the table row at `i`.
    pub fn proc_name_pid(&self, i: usize) -> (r: (String, usize))
        requires
            i < self.procs().len(),
        ensures
            r.0@ == self.procs()[i as int].body.name_spec(),
            r.1 == self.procs()[i as int].pid,
    {
        let name = self.processes[i].body.name();
        (name, self.processes[i].pid)
    }

    /// Index of the record with this pid, if present.
    fn find_proc(&self, pid: usize) -> (r: Option<usize>)
        ensures
            match r {
                Option::Some(i) => i < self.procs().len() && self.procs()[i as int].pid == pid,
                Option::None => !self.contains_pid(pid),
            },
    {
        let n = self.processes.len();
        let mut i: usize = 0;
        while i < n
            invariant
                i <= n,
                n == self.procs().len(),
                forall|j: int| 0 <= j < i ==> (#[trigger] self.procs()[j]).pid != pid,
            decreases n - i,
        {
            if self.processes[i].pid == pid {
                return Option::Some(i);
            }
            i = i + 1;
        }
        Option::None
    }

    /// Removes the process if present; a missing pid is a no-op, not an
    /// error. A process that kills its own pid mid-step is not reinstalled
    /// when its step ends.
    pub fn kill(&mut self, pid: usize)
        requires
            old(self).wf(),
        ensures
            final(self).wf(),
            final(self).last_pid() == old(self).last_pid(),
            final(self).assigned() == old(self).assigned(),
            frame_sched_only(*old(self), *final(self)),
            old(self).stepping_at() == Option::<usize>::Some(pid) ==> final(self).procs() == old(
                self,
            ).procs() && final(self).kill_flag() && final(self).died() == old(self).died().push(
                pid,
            ),
            old(self).stepping_at() != Option::<usize>::Some(pid) ==> final(self).died() == old(
                self,
            ).died(),
            old(self).stepping_at() != Option::<usize>::Some(pid) ==> final(self).kill_flag()
                == old(self).kill_flag(),
            old(self).stepping_at() != Option::<usize>::Some(pid) && old(self).contains_pid(pid)
                ==> exists|k: int|
                0 <= k < old(self).procs().len() && (#[trigger] old(self).procs()[k]).pid == pid
                    && final(self).procs() == old(self).procs().remove(k),
            old(self).stepping_at() != Option::<usize>::Some(pid) && !old(self).contains_pid(pid)
                ==> final(self).procs() == old(self).procs(),
            old(self).stepping_at() != Option::<usize>::Some(pid) ==> !final(self).contains_pid(
                pid,
            ),
            forall|q: usize|
                final(self).contains_pid(q) ==> #[trigger] old(self).contains_pid(q),
    {
        let ghost pre = *self;
        let is_stepping = match self.stepping {
            Option::Some(p) => p == pid,
            Option::None => false,
        };
        if is_stepping {
            self.step_killed = true;
            proof {
                self.death_log@ = self.death_log@.push(pid);
                assert(self.procs() == pre.procs());
                assert(self.fs_state() == pre.fs_state());
                lemma_wf_preserved(pre, *self);
            }
            return;
        }
        match self.find_proc(pid) {
            Option::Some(k) => {
                self.processes.remove(k);
                proof {
                    assert(self.procs() == pre.procs().remove(k as int));
                    assert(self.fs_state() == pre.fs_state());
                    assert(self.last_pid() == pre.last_pid());
                    assert(self.assigned() == pre.assigned());
                    assert forall|i: int|
                        0 <= i < self.assigned().len() implies #[trigger] self.assigned()[i]
                        <= self.last_pid() by {
                        assert(pre.assigned()[i] <= pre.last_pid());
                    }
                    assert forall|i: int, j: int|
                        0 <= i < j < self.assigned().len() implies #[trigger] self.assigned()[i]
                        < #[trigger] self.assigned()[j] by {
                        assert(pre.assigned()[i] < pre.assigned()[j]);
                    }
                    assert forall|x: int, y: int|
                        0 <= x < y < self.procs().len() implies (#[trigger] self.procs()[x]).pid
                        < (#[trigger] self.procs()[y]).pid by {
                        if y < k as int {
                        } else if x < k as int {
                            assert(pre.procs()[x].pid < pre.procs()[y + 1].pid);
                        } else {
                            assert(pre.procs()[x + 1].pid < pre.procs()[y + 1].pid);
                        }
                    }
                    assert forall|i: int| 0 <= i < self.procs().len() implies (
                    #[trigger] self.procs()[i]).pid <= self.last_pid() by {
                        if i < k as int {
                            assert(pre.procs()[i].pid <= pre.last_pid());
                        } else {
                            assert(pre.procs()[i + 1].pid <= pre.last_pid());
                        }
                    }
                    assert forall|i: int| 0 <= i < self.procs().len() implies (
                    #[trigger] self.procs()[i]).body.pid_spec() == self.procs()[i].pid by {
                        if i < k as int {
                            assert(pre.procs()[i].body.pid_spec() == pre.procs()[i].pid);
                        } else {
                            assert(pre.procs()[i + 1].body.pid_spec() == pre.procs()[i + 1].pid);
                        }
                    }
                    assert forall|i: int| 0 <= i < self.procs().len() implies crate::process::body_inv(
                        (#[trigger] self.procs()[i]).body,
                    ) by {
                        if i < k as int {
                            assert(crate::process::body_inv(pre.procs()[i].body));
                        } else {
                            assert(crate::process::body_inv(pre.procs()[i + 1].body));
                        }
                    }
                    assert forall|q: usize| self.contains_pid(q) implies pre.contains_pid(
                        q,
                    ) by {
                        let i = choose|i: int|
                            0 <= i < self.procs().len() && (#[trigger] self.procs()[i]).pid == q;
                        if i < k as int {
                            assert(pre.procs()[i].pid == q);
                        } else {
                            assert(pre.procs()[i + 1].pid == q);
                        }
                    }
                    assert(!self.contains_pid(pid)) by {
                        if self.contains_pid(pid) {
                            let i = choose|i: int|
                                0 <= i < self.procs().len() && (#[trigger] self.procs()[i]).pid
                                    == pid;
                            if i < k as int {
                                assert(pre.procs()[i].pid == pid);
                                assert(pre.procs()[i].pid < pre.procs()[k as int].pid);
                            } else {
                                assert(pre.procs()[i + 1].pid == pid);
                                assert(pre.procs()[k as int].pid < pre.procs()[i + 1].pid);
                            }
                        }
                    }
                }
            },
            Option::None => {
                proof {
                    assert(self.procs() == pre.procs());
                    assert(self.fs_state() == pre.fs_state());
                    lemma_wf_preserved(pre, *self);
                }
            },
        }
    }

    /// Removes and returns the table row at `i`.
    fn take_at(&mut self, i: usize) -> (r: ProcessRecord)
        requires
            old(self).wf(),
            i < old(self).procs().len(),
        ensures
            final(self).wf(),
            r == old(self).procs()[i as int],
            final(self).procs() == old(self).procs().remove(i as int),
            forall|q: usize|
                final(self).contains_pid(q) <==> #[trigger] old(self).contains_pid(q) && q
                    != r.pid,
            final(self).last_pid() == old(self).last_pid(),
            final(self).assigned() == old(self).assigned(),
            final(self).kill_flag() == old(self).kill_flag(),
            final(self).died() == old(self).died(),
            frame_sched_only(*old(self), *final(self)),
    {
        let ghost pre = *self;
        let ghost k = i as int;
        let rec = self.processes.remove(i);
        proof {
            assert(self.procs() == pre.procs().remove(k));
            assert(self.fs_state() == pre.fs_state());
            assert(self.last_pid() == pre.last_pid());
            assert(self.assigned() == pre.assigned());
            assert forall|ai: int|
                0 <= ai < self.assigned().len() implies #[trigger] self.assigned()[ai]
                <= self.last_pid() by {
                assert(pre.assigned()[ai] <= pre.last_pid());
            }
            assert forall|ai: int, aj: int|
                0 <= ai < aj < self.assigned().len() implies #[trigger] self.assigned()[ai]
                < #[trigger] self.assigned()[aj] by {
                assert(pre.assigned()[ai] < pre.assigned()[aj]);
            }

            assert forall|x: int, y: int|
                0 <= x < y < self.procs().len() implies (#[trigger] self.procs()[x]).pid < (
            #[trigger] self.procs()[y]).pid by {
                if y < k {
                } else if x < k {
                    assert(pre.procs()[x].pid < pre.procs()[y + 1].pid);
                } else {
                    assert(pre.procs()[x + 1].pid < pre.procs()[y + 1].pid);
                }
            }
            assert forall|ii: int| 0 <= ii < self.procs().len() implies (
            #[trigger] self.procs()[ii]).pid <= self.last_pid() && self.procs()[ii].body.pid_spec()
                == self.procs()[ii].pid && crate::process::body_inv(self.procs()[ii].body) by {
                if ii < k {
                    assert(pre.procs()[ii].pid <= pre.last_pid());
                    assert(pre.procs()[ii].body.pid_spec() == pre.procs()[ii].pid);
                    assert(crate::process::body_inv(pre.procs()[ii].body));
                } else {
                    assert(pre.procs()[ii + 1].pid <= pre.last_pid());
                    assert(pre.procs()[ii + 1].body.pid_spec() == pre.procs()[ii + 1].pid);
                    assert(crate::process::body_inv(pre.procs()[ii + 1].body));
                }
            }
            assert forall|q: usize|
                self.contains_pid(q) <==> pre.contains_pid(q) && q != rec.pid by {
                if self.contains_pid(q) {
                    let ii = choose|ii: int|
                        0 <= ii < self.procs().len() && (#[trigger] self.procs()[ii]).pid == q;
                    if ii < k {
                        assert(pre.procs()[ii].pid == q);
                        assert(pre.procs()[ii].pid < pre.procs()[k].pid);
                    } else {
                        assert(pre.procs()[ii + 1].pid == q);
                        assert(pre.procs()[k].pid < pre.procs()[ii + 1].pid);
                    }
                }
                if pre.contains_pid(q) && q != rec.pid {
                    let ii = choose|ii: int|
                        0 <= ii < pre.procs().len() && (#[trigger] pre.procs()[ii]).pid == q;
                    assert(ii != k);
                    if ii < k {
                        assert(self.procs()[ii].pid == q);
                    } else {
                        assert(self.procs()[ii - 1].pid == q);
                    }
                }
            }
        }
        rec
    }

    /// Installs a record at its sorted position, replacing a record under
    /// the same pid.
    fn insert_record(&mut self, rec: ProcessRecord)
        requires
            old(self).wf(),
            rec.pid <= old(self).last_pid(),
            rec.body.pid_spec() == rec.pid,
            crate::process::body_inv(rec.body),
        ensures
            final(self).wf(),
            final(self).last_pid() == old(self).last_pid(),
            final(self).assigned() == old(self).assigned(),
            final(self).kill_flag() == old(self).kill_flag(),
            final(self).died() == old(self).died(),
            frame_sched_only(*old(self), *final(self)),
            final(self).contains_pid(rec.pid),
            !old(self).contains_pid(rec.pid) ==> exists|k: int|
                #![trigger old(self).procs().insert(k, rec)]
                0 <= k <= old(self).procs().len()
                    && final(self).procs() == old(self).procs().insert(k, rec),
            old(self).contains_pid(rec.pid) ==> exists|k: int|
                #![trigger old(self).procs().update(k, rec)]
                0 <= k < old(self).procs().len() && old(self).procs()[k].pid == rec.pid
                    && final(self).procs() == old(self).procs().update(k, rec),
            forall|q: usize|
                final(self).contains_pid(q) <==> #[trigger] old(self).contains_pid(q) || q
                    == rec.pid,
    {
        let ghost pre = *self;
        let pid = rec.pid;
        let n = self.processes.len();
        let mut i: usize = 0;
        while i < n && self.processes[i].pid < pid
            invariant
                i <= n,
                n == self.procs().len(),
                *self == pre,
                forall|j: int| 0 <= j < i ==> (#[trigger] self.procs()[j]).pid < pid,
            decreases n - i,
        {
            i = i + 1;
        }
        let ghost k = i as int;
        if i < n && self.processes[i].pid == pid {
            self.processes.remove(i);
            self.processes.insert(i, rec);
            proof {
                assert(self.procs() =~= pre.procs().update(k, rec));
                assert(self.fs_state() == pre.fs_state());
                assert(self.last_pid() == pre.last_pid());
                assert(self.assigned() == pre.assigned());
                assert forall|ai: int|
                    0 <= ai < self.assigned().len() implies #[trigger] self.assigned()[ai]
                    <= self.last_pid() by {
                    assert(pre.assigned()[ai] <= pre.last_pid());
                }
                assert forall|ai: int, aj: int|
                    0 <= ai < aj < self.assigned().len() implies #[trigger] self.assigned()[ai]
                    < #[trigger] self.assigned()[aj] by {
                    assert(pre.assigned()[ai] < pre.assigned()[aj]);
                }

                assert forall|x: int, y: int|
                    0 <= x < y < self.procs().len() implies (#[trigger] self.procs()[x]).pid < (
                #[trigger] self.procs()[y]).pid by {
                    assert(pre.procs()[x].pid < pre.procs()[y].pid);
                }
                assert forall|ii: int| 0 <= ii < self.procs().len() implies (
                #[trigger] self.procs()[ii]).pid <= self.last_pid() && self.procs()[
                    ii
                ].body.pid_spec() == self.procs()[ii].pid && crate::process::body_inv(
                    self.procs()[ii].body,
                ) by {
                    if ii != k {
                        assert(pre.procs()[ii].pid <= pre.last_pid());
                        assert(pre.procs()[ii].body.pid_spec() == pre.procs()[ii].pid);
                        assert(crate::process::body_inv(pre.procs()[ii].body));
                    }
                }
                assert(self.procs()[k].pid == pid);
                assert(self.contains_pid(pid));
                assert forall|q: usize|
                    self.contains_pid(q) <==> pre.contains_pid(q) || q == pid by {
                    if self.contains_pid(q) {
                        let i2 = choose|i2: int|
                            0 <= i2 < self.procs().len() && (#[trigger] self.procs()[i2]).pid == q;
                        if i2 != k {
                            assert(pre.procs()[i2].pid == q);
                        }
                    }
                    if pre.contains_pid(q) || q == pid {
                        if q != pid {
                            let i2 = choose|i2: int|
                                0 <= i2 < pre.procs().len() && (#[trigger] pre.procs()[i2]).pid
                                    == q;
                            assert(i2 != k);
                            assert(self.procs()[i2].pid == q);
                        }
                    }
                }
            }
        } else {
            proof {
                if k < n {
                    assert(pid < pre.procs()[k].pid);
                }
                if pre.contains_pid(pid) {
                    let j = choose|j: int|
                        0 <= j < pre.procs().len() && (#[trigger] pre.procs()[j]).pid == pid;
                    if j < k {
                    } else {
                        assert(pre.procs()[k].pid <= pre.procs()[j].pid);
                    }
                    assert(false);
                }
            }
            self.processes.insert(i, rec);
            proof {
                assert(self.procs() =~= pre.procs().insert(k, rec));
                assert(self.fs_state() == pre.fs_state());
                assert(self.last_pid() == pre.last_pid());
                assert(self.assigned() == pre.assigned());
                assert forall|ai: int|
                    0 <= ai < self.assigned().len() implies #[trigger] self.assigned()[ai]
                    <= self.last_pid() by {
                    assert(pre.assigned()[ai] <= pre.last_pid());
                }
                assert forall|ai: int, aj: int|
                    0 <= ai < aj < self.assigned().len() implies #[trigger] self.assigned()[ai]
                    < #[trigger] self.assigned()[aj] by {
                    assert(pre.assigned()[ai] < pre.assigned()[aj]);
                }

                assert forall|x: int, y: int|
                    0 <= x < y < self.procs().len() implies (#[trigger] self.procs()[x]).pid < (
                #[trigger] self.procs()[y]).pid by {
                    if x == k {
                        if y - 1 == k {
                            assert(self.procs()[y].pid == pre.procs()[k].pid);
                        } else {
                            assert(pre.procs()[k].pid <= pre.procs()[y - 1].pid);
                        }
                    }
                }
                assert forall|ii: int| 0 <= ii < self.procs().len() implies (
                #[trigger] self.procs()[ii]).pid <= self.last_pid() && self.procs()[
                    ii
                ].body.pid_spec() == self.procs()[ii].pid && crate::process::body_inv(
                    self.procs()[ii].body,
                ) by {
                    if ii < k {
                        assert(pre.procs()[ii].pid <= pre.last_pid());
                        assert(pre.procs()[ii].body.pid_spec() == pre.procs()[ii].pid);
                        assert(crate::process::body_inv(pre.procs()[ii].body));
                    } else if ii > k {
                        assert(pre.procs()[ii - 1].pid <= pre.last_pid());
                        assert(pre.procs()[ii - 1].body.pid_spec() == pre.procs()[ii - 1].pid);
                        assert(crate::process::body_inv(pre.procs()[ii - 1].body));
                    }
                }
                assert(self.procs()[k].pid == pid);
                assert(self.contains_pid(pid));
                assert forall|q: usize|
                    self.contains_pid(q) <==> pre.contains_pid(q) || q == pid by {
                    if self.contains_pid(q) {
                        let i2 = choose|i2: int|
                            0 <= i2 < self.procs().len() && (#[trigger] self.procs()[i2]).pid == q;
                        if i2 < k {
                            assert(pre.procs()[i2].pid == q);
                        } else if i2 > k {
                            assert(pre.procs()[i2 - 1].pid == q);
                        }
                    }
                    if pre.contains_pid(q) || q == pid {
                        if q != pid {
                            let i2 = choose|i2: int|
                                0 <= i2 < pre.procs().len() && (#[trigger] pre.procs()[i2]).pid
                                    == q;
                            if i2 < k {
                                assert(self.procs()[i2].pid == q);
                            } else {
                                assert(self.procs()[i2 + 1].pid == q);
                            }
                        }
                    }
                }
            }
        }
    }

    /// Installs a process under a caller-chosen pid at or below the
    /// allocation mark; used for the well-known system processes. An existing
    /// record under that pid is replaced.
    pub fn spawn_with_pid(&mut self, p: ProcessBody, pid: usize)
        requires
            old(self).wf(),
            pid <= old(self).last_pid(),
            crate::process::body_inv(p),
        ensures
            final(self).wf(),
            final(self).last_pid() == old(self).last_pid(),
            final(self).assigned() == old(self).assigned(),
            final(self).kill_flag() == old(self).kill_flag(),
            final(self).died() == old(self).died(),
            frame_sched_only(*old(self), *final(self)),
            final(self).contains_pid(pid),
            !old(self).contains_pid(pid) ==> exists|k: int, b: ProcessBody|
                #![trigger old(self).procs().insert(k, (ProcessRecord { pid: pid, body: b }))]
                0 <= k <= old(self).procs().len() && crate::process::same_but_pid(p, b, pid)
                    && final(self).procs() == old(self).procs().insert(
                    k,
                    (ProcessRecord { pid: pid, body: b }),
                ),
            old(self).contains_pid(pid) ==> exists|k: int, b: ProcessBody|
                #![trigger old(self).procs().update(k, (ProcessRecord { pid: pid, body: b }))]
                0 <= k < old(self).procs().len() && old(self).procs()[k].pid == pid
                    && crate::process::same_but_pid(p, b, pid) && final(self).procs() == old(
                    self,
                ).procs().update(k, (ProcessRecord { pid: pid, body: b })),
            forall|q: usize|
                final(self).contains_pid(q) <==> #[trigger] old(self).contains_pid(q) || q == pid,
    {
        let ghost pre = *self;
        let mut p = p;
        p.set_pid(pid);
        let ghost b = p;
        self.insert_record(ProcessRecord { pid: pid, body: p });
        proof {
            if !pre.contains_pid(pid) {
                let k = choose|k: int|
                    #![trigger pre.procs().insert(k, (ProcessRecord { pid: pid, body: b }))]
                    0 <= k <= pre.procs().len() && self.procs() == pre.procs().insert(
                        k,
                        (ProcessRecord { pid: pid, body: b }),
                    );
                assert(0 <= k <= pre.procs().len() && crate::process::same_but_pid(p, b, pid)
                    && self.procs() == pre.procs().insert(
                    k,
                    (ProcessRecord { pid: pid, body: b }),
                ));
            } else {
                let k = choose|k: int|
                    #![trigger pre.procs().update(k, (ProcessRecord { pid: pid, body: b }))]
                    0 <= k < pre.procs().len() && pre.procs()[k].pid == pid && self.procs()
                        == pre.procs().update(k, (ProcessRecord { pid: pid, body: b }));
                assert(0 <= k < pre.procs().len() && pre.procs()[k].pid == pid
                    && crate::process::same_but_pid(p, b, pid) && self.procs()
                    == pre.procs().update(k, (ProcessRecord { pid: pid, body: b })));
            }
        }
    }

    /// Allocates a fresh pid and installs the process under it. The fresh pid
    /// is strictly above every pid ever allocated and above the reserved
    /// range, so a live pid is never reused.
    pub fn spawn(&mut self, p: ProcessBody)
        requires
            old(self).wf(),
            old(self).last_pid() < usize::MAX,
            crate::process::body_inv(p),
        ensures
            final(self).wf(),
            final(self).last_pid() == old(self).last_pid() + 1,
            final(self).assigned() == old(self).assigned().push(
                ((old(self).last_pid() + 1) as usize),
            ),
            final(self).kill_flag() == old(self).kill_flag(),
            final(self).died() == old(self).died(),
            frame_sched_only(*old(self), *final(self)),
            !old(self).contains_pid(((old(self).last_pid() + 1) as usize)),
            exists|b: ProcessBody|
                #![trigger old(self).procs().push((ProcessRecord { pid: ((old(self).last_pid() + 1) as usize), body: b }))]
                crate::process::same_but_pid(p, b, ((old(self).last_pid() + 1) as usize))
                    && final(self).procs() == old(self).procs().push(
                    (ProcessRecord {
                        pid: ((old(self).last_pid() + 1) as usize),
                        body: b,
                    }),
                ),
            forall|q: usize|
                final(self).contains_pid(q) <==> #[trigger] old(self).contains_pid(q) || q == ((
                old(self).last_pid() + 1) as usize),
    {
        let ghost pre = *self;
        let pid = self.get_next_pid();
        let ghost mid = *self;
        self.spawn_with_pid(p, pid);
        proof {
            let (k, b) = choose|k: int, b: ProcessBody|
                0 <= k <= mid.procs().len() && crate::process::same_but_pid(p, b, pid)
                    && self.procs() == mid.procs().insert(k, (ProcessRecord { pid: pid, body: b }));
            if k < mid.procs().len() {
                assert(self.procs()[k + 1] == mid.procs()[k]);
                assert(self.procs()[k].pid == pid);
                assert(mid.procs()[k].pid <= pre.last_pid());
                assert(false);
            }
            assert(self.procs() =~= mid.procs().push((ProcessRecord { pid: pid, body: b })));
            assert forall|q: usize|
                self.contains_pid(q) <==> pre.contains_pid(q) || q == pid by {
                assert(mid.procs() == pre.procs());
                assert(self.contains_pid(q) <==> mid.contains_pid(q) || q == pid);
                assert(mid.contains_pid(q) <==> pre.contains_pid(q));
            }
        }
    }
}

/// The messages of `q` whose destination is in `live`, in queue order.
pub open spec fn delivered_of(q: Seq<(usize, MessageV)>, live: Set<usize>) -> Seq<
    (usize, MessageV),
> {
    q.filter(|e: (usize, MessageV)| live.contains(e.0))
}

impl Kernel {
    /// Drains the message queue once, head first, delivering each message to
    /// its target's handler if the target still exists and dropping it
    /// silently otherwise. Handlers in this kernel never enqueue, so the
    /// drain consumes exactly the queue it started with.
    fn deliver_messages(&mut self)
        requires
            old(self).wf(),
            old(self).at_rest(),
        ensures
            final(self).wf(),
            final(self).at_rest(),
            final(self).msgs().len() == 0,
            final(self).delivered() == old(self).delivered() + old(self).msgs().filter(
                |e: (usize, MessageV)| old(self).contains_pid(e.0),
            ),
            forall|q: usize|
                final(self).contains_pid(q) <==> #[trigger] old(self).contains_pid(q),
            final(self).last_pid() == old(self).last_pid(),
            final(self).assigned() == old(self).assigned(),
            final(self).stepped() == old(self).stepped(),
            final(self).died() == old(self).died(),
            final(self).ticks() == old(self).ticks(),
            final(self).fs_state() == old(self).fs_state(),
            final(self).time_spec() == old(self).time_spec(),
            final(self).timestamp_view() == old(self).timestamp_view(),
            exists|extra: Seq<char>|
                final(self).console_text() == #[trigger] (old(self).console_text() + extra),
    {
        let ghost pre = *self;
        let ghost pred = |e: (usize, MessageV)| pre.contains_pid(e.0);
        let ghost mut done: int = 0;
        proof {
            assert(pre.msgs().skip(0) =~= pre.msgs());
            assert(pre.msgs().take(0) =~= Seq::<(usize, MessageV)>::empty());
            vstd::seq_lib::lemma_seq_skip_nothing(pre.msgs(), 0);
            reveal(Seq::filter);
            assert(self.delivered() =~= pre.delivered() + pre.msgs().take(0).filter(pred));
            assert(self.console_text() =~= pre.console_text() + Seq::<char>::empty());
        }
        while self.messages.len() > 0
            invariant
                self.wf(),
                self.at_rest(),
                0 <= done <= pre.msgs().len(),
                pred == (|e: (usize, MessageV)| pre.contains_pid(e.0)),
                self.msgs() == pre.msgs().skip(done),
                self.delivered() == pre.delivered() + pre.msgs().take(done).filter(pred),
                forall|q: usize| self.contains_pid(q) <==> #[trigger] pre.contains_pid(q),
                self.last_pid() == pre.last_pid(),
                self.assigned() == pre.assigned(),
                self.stepped() == pre.stepped(),
                self.died() == pre.died(),
                self.ticks() == pre.ticks(),
                self.fs_state() == pre.fs_state(),
                self.time_spec() == pre.time_spec(),
                self.timestamp_view() == pre.timestamp_view(),
                exists|extra: Seq<char>|
                    self.console_text() == #[trigger] (pre.console_text() + extra),
            decreases self.msgs().len(),
        {
            let ghost q_pre = *self;
            let head = self.messages.pop_front();
            let (pid, msg) = match head {
                Option::Some(pm) => pm,
                Option::None => {
                    proof {
                        assert(false);
                    }
                    (0usize, Message::Kill)
                },
            };
            let ghost msgv = msg@;
            let ghost popped = *self;
            proof {
                assert(q_pre.msgs()[0] == (pid, msgv));
                assert(pre.msgs()[done] == (pid, msgv));
                assert(self.msgs() =~= q_pre.msgs().skip(1));
                assert(self.msgs() =~= pre.msgs().skip(done + 1));
                let t1 = pre.msgs().take(done + 1);
                assert(t1.drop_last() =~= pre.msgs().take(done));
                assert(t1.last() == pre.msgs()[done]);
                reveal(Seq::filter);
            }
            match self.find_proc(pid) {
                Option::Some(ki) => {
                    let mut rec = self.take_at(ki);
                    let ghost taken = *self;
                    self.stepping = Option::Some(pid);
                    self.step_killed = false;
                    proof {
                        self.delivered_log@ = self.delivered_log@.push((pid, msgv));
                        assert(self.wf());
                    }
                    let ghost before_handler = *self;
                    rec.body.on_message(self, msg);
                    self.stepping = Option::None;
                    let ghost handled = *self;
                    proof {
                        assert(self.wf());
                        assert(self.procs() == taken.procs());
                        assert(rec.pid <= self.last_pid()) by {
                            assert(popped.contains_pid(rec.pid));
                        }
                    }
                    self.insert_record(rec);
                    proof {
                        assert forall|q: usize|
                            self.contains_pid(q) <==> pre.contains_pid(q) by {
                            assert(self.contains_pid(q) <==> handled.contains_pid(q) || q
                                == rec.pid);
                            assert(handled.procs() == taken.procs());
                            assert(handled.contains_pid(q) <==> taken.contains_pid(q));
                            assert(taken.contains_pid(q) <==> (popped.contains_pid(q) && q
                                != rec.pid));
                            assert(popped.procs() == q_pre.procs());
                            assert(popped.contains_pid(q) <==> q_pre.contains_pid(q));
                        }
                        assert(pred(pre.msgs()[done]));
                        assert(self.delivered() =~= pre.delivered() + pre.msgs().take(
                            done + 1,
                        ).filter(pred));
                        let e1 = choose|extra: Seq<char>|
                            before_handler.console_text() == #[trigger] (pre.console_text()
                                + extra);
                        let e2 = choose|extra: Seq<char>|
                            self.console_text() == #[trigger] (before_handler.console_text()
                                + extra);
                        assert(self.console_text() =~= pre.console_text() + (e1 + e2));
                    }
                },
                Option::None => {
                    proof {
                        assert(!pred(pre.msgs()[done]));
                        assert(self.delivered() =~= pre.delivered() + pre.msgs().take(
                            done + 1,
                        ).filter(pred));
                    }
                },
            }
            proof {
                done = done + 1;
            }
        }
        proof {
            assert(pre.msgs().skip(done).len() == 0);
            assert(done == pre.msgs().len());
            assert(pre.msgs().take(done) =~= pre.msgs());
        }
    }

    /// One tick: the counter advances, every process present at the start of
    /// the tick is stepped once in ascending pid order (skipping any that a
    /// predecessor killed), and then the message queue is drained once.
    pub fn tick(&mut self)
        requires
            old(self).wf(),
            old(self).at_rest(),
            old(self).ticks() < u64::MAX,
            old(self).last_pid() + old(self).procs().len() <= usize::MAX,
        ensures
            final(self).wf(),
            final(self).at_rest(),
            final(self).ticks() == old(self).ticks() + 1,
            final(self).msgs().len() == 0,
            old(self).last_pid() <= final(self).last_pid(),
            exists|seg: Seq<usize>|
                #![trigger old(self).stepped() + seg]
                final(self).stepped() == old(self).stepped() + seg && (forall|i: int|
                    0 <= i < seg.len() ==> old(self).contains_pid(#[trigger] seg[i])) && (forall|
                    i: int,
                    j: int,
                |
                    0 <= i < j < seg.len() ==> #[trigger] seg[i] < #[trigger] seg[j]) && (forall|
                    p2: usize,
                |
                    #![trigger old(self).contains_pid(p2), final(self).contains_pid(p2)]
                    old(self).contains_pid(p2) && final(self).contains_pid(p2) ==> seg.contains(
                        p2,
                    )),
            exists|aseg: Seq<usize>|
                #![trigger old(self).assigned() + aseg]
                final(self).assigned() == old(self).assigned() + aseg && (forall|i: int|
                    0 <= i < aseg.len() ==> #[trigger] aseg[i] > old(self).last_pid()),
            exists|q: Seq<(usize, MessageV)>, live: Set<usize>|
                #![trigger delivered_of(q, live)]
                old(self).msgs().is_prefix_of(q) && (forall|p: usize|
                    #[trigger] live.contains(p) <==> final(self).contains_pid(p))
                    && final(self).delivered() == old(self).delivered() + delivered_of(q, live),
            exists|dseg: Seq<usize>|
                #![trigger old(self).died() + dseg]
                final(self).died() == old(self).died() + dseg && (forall|i: int|
                    0 <= i < dseg.len() ==> !final(self).contains_pid(#[trigger] dseg[i])),
            forall|p: usize|
                final(self).contains_pid(p) ==> #[trigger] old(self).contains_pid(p) || p > old(
                    self,
                ).last_pid(),
    {
        let ghost orig = *self;
        self.tick_count = self.tick_count + 1;
        let n = self.processes.len();
        let mut pids: Vec<usize> = Vec::new();
        let mut i: usize = 0;
        while i < n
            invariant
                i <= n,
                *self == (Kernel { tick_count: self.tick_count, ..orig }),
                self.ticks() == orig.ticks() + 1,
                n == self.procs().len(),
                pids@ =~= self.pids().take(i as int),
            decreases n - i,
        {
            pids.push(self.processes[i].pid);
            proof {
                assert(self.pids().take(i + 1) =~= self.pids().take(i as int).push(
                    self.pids()[i as int],
                ));
            }
            i = i + 1;
        }
        proof {
            assert(pids@ =~= orig.pids());
        }
        let ghost mut seg: Seq<usize> = Seq::empty();
        let ghost mut aseg: Seq<usize> = Seq::empty();
        let ghost mut dseg: Seq<usize> = Seq::empty();
        proof {
            assert(self.stepped() =~= orig.stepped() + seg);
            assert(self.assigned() =~= orig.assigned() + aseg);
            assert(self.died() =~= orig.died() + dseg);
            assert(orig.msgs().is_prefix_of(self.msgs())) by {
                assert(self.msgs().subrange(0, orig.msgs().len() as int) =~= orig.msgs());
            }
        }
        let mut idx: usize = 0;
        while idx < pids.len()
            invariant
                orig.wf(),
                idx <= pids@.len(),
                pids@ == orig.pids(),
                self.wf(),
                self.at_rest(),
                self.ticks() == orig.ticks() + 1,
                orig.last_pid() <= self.last_pid(),
                self.last_pid() <= orig.last_pid() + idx,
                orig.last_pid() + pids@.len() <= usize::MAX,
                self.stepped() == orig.stepped() + seg,
                forall|j: int| 0 <= j < seg.len() ==> orig.contains_pid(#[trigger] seg[j]),
                forall|i2: int, j2: int|
                    0 <= i2 < j2 < seg.len() ==> #[trigger] seg[i2] < #[trigger] seg[j2],
                seg.len() > 0 && idx < pids@.len() ==> seg.last() < pids@[idx as int],
                forall|m: int|
                    0 <= m < idx && self.contains_pid(#[trigger] pids@[m]) ==> seg.contains(
                        pids@[m],
                    ),
                self.assigned() == orig.assigned() + aseg,
                forall|j: int| 0 <= j < aseg.len() ==> #[trigger] aseg[j] > orig.last_pid(),
                self.delivered() == orig.delivered(),
                self.died() == orig.died() + dseg,
                forall|i2: int|
                    0 <= i2 < dseg.len() ==> !self.contains_pid(#[trigger] dseg[i2]),
                forall|i2: int| 0 <= i2 < dseg.len() ==> #[trigger] dseg[i2] <= orig.last_pid(),
                orig.msgs().is_prefix_of(self.msgs()),
                forall|p: usize|
                    self.contains_pid(p) ==> #[trigger] orig.contains_pid(p) || p > orig.last_pid(),
            decreases pids@.len() - idx,
        {
            let ghost seg0 = seg;
            let ghost dseg0 = dseg;
            let p = pids[idx];
            proof {
                assert(orig.pids()[idx as int] == p);
                assert(orig.procs()[idx as int].pid == p);
                assert(orig.contains_pid(p));
            }
            match self.find_proc(p) {
                Option::Some(ki) => {
                    let ghost iter_pre = *self;
                    let mut rec = self.take_at(ki);
                    let ghost taken = *self;
                    self.stepping = Option::Some(p);
                    self.step_killed = false;
                    proof {
                        self.stepped_log@ = self.stepped_log@.push(p);
                        seg = seg.push(p);
                        assert(self.wf());
                        assert(self.stepped() =~= orig.stepped() + seg);
                        assert forall|i2: int, j2: int|
                            0 <= i2 < j2 < seg.len() implies #[trigger] seg[i2]
                            < #[trigger] seg[j2] by {}
                    }
                    let ghost before_step = *self;
                    rec.body.step(self);
                    let ghost after_step = *self;
                    let killed = self.step_killed;
                    self.stepping = Option::None;
                    let ghost stepped_st = *self;
                    proof {
                        assert(self.wf());
                        if after_step.assigned() == before_step.assigned() {
                            assert(self.assigned() =~= orig.assigned() + aseg);
                        } else {
                            aseg = aseg.push(((before_step.last_pid() + 1) as usize));
                            assert(self.assigned() =~= orig.assigned() + aseg);
                        }
                        if after_step.died() == before_step.died() {
                            assert(self.died() =~= orig.died() + dseg);
                        } else {
                            dseg = dseg.push(p);
                            assert(after_step.died() == before_step.died().push(p));
                            assert(self.died() =~= orig.died() + dseg);
                        }
                    }
                    if !killed {
                        proof {
                            assert(rec.pid == p);
                            assert(rec.pid <= orig.last_pid()) by {
                                assert(orig.procs()[idx as int].pid <= orig.last_pid());
                            }
                        }
                        self.insert_record(rec);
                        proof {
                            assert(dseg == dseg0) by {
                                assert(after_step.died() == before_step.died());
                            }
                            assert forall|i2: int|
                                0 <= i2 < dseg.len() implies !self.contains_pid(
                                #[trigger] dseg[i2]) by {
                                let q2 = dseg[i2];
                                assert(!iter_pre.contains_pid(q2));
                                assert(q2 != rec.pid);
                                if self.contains_pid(q2) {
                                    assert(stepped_st.contains_pid(q2));
                                    assert(stepped_st.procs() == after_step.procs());
                                    assert(after_step.contains_pid(q2));
                                    assert(before_step.contains_pid(q2) || q2 > before_step
                                        .last_pid());
                                    assert(before_step.procs() == taken.procs());
                                    assert(taken.contains_pid(q2));
                                    assert(false);
                                }
                            }
                            assert forall|q2: usize|
                                self.contains_pid(q2) implies orig.contains_pid(q2) || q2
                                > orig.last_pid() by {
                                if q2 != rec.pid {
                                    assert(self.contains_pid(q2) <==> stepped_st.contains_pid(
                                        q2,
                                    ) || q2 == rec.pid);
                                    assert(stepped_st.contains_pid(q2));
                                    assert(after_step.procs() == stepped_st.procs());
                                    assert(after_step.contains_pid(q2) <==> stepped_st
                                        .contains_pid(q2));
                                    assert(before_step.procs() == taken.procs());
                                    assert(before_step.contains_pid(q2) <==> taken.contains_pid(
                                        q2,
                                    ));
                                    if !taken.contains_pid(q2) {
                                        assert(q2 > before_step.last_pid());
                                        assert(q2 > taken.last_pid());
                                    } else {
                                        assert(iter_pre.contains_pid(q2));
                                    }
                                }
                            }
                        }
                    } else {
                        proof {
                            assert forall|i2: int|
                                0 <= i2 < dseg.len() implies !self.contains_pid(
                                #[trigger] dseg[i2]) by {
                                let q2 = dseg[i2];
                                if self.contains_pid(q2) {
                                    assert(after_step.procs() == self.procs());
                                    assert(after_step.contains_pid(q2));
                                    assert(before_step.procs() == taken.procs());
                                    assert(before_step.contains_pid(q2) || q2 > before_step
                                        .last_pid());
                                    assert(q2 <= orig.last_pid());
                                    assert(taken.contains_pid(q2));
                                    assert(iter_pre.contains_pid(q2) && q2 != rec.pid);
                                    if i2 < dseg0.len() {
                                        assert(!iter_pre.contains_pid(dseg0[i2]));
                                    } else {
                                        assert(q2 == p);
                                    }
                                    assert(false);
                                }
                            }
                            assert forall|q2: usize|
                                self.contains_pid(q2) implies orig.contains_pid(q2) || q2
                                > orig.last_pid() by {
                                assert(after_step.procs() == self.procs());
                                assert(after_step.contains_pid(q2));
                                assert(before_step.procs() == taken.procs());
                                assert(before_step.contains_pid(q2) <==> taken.contains_pid(q2));
                                if !taken.contains_pid(q2) {
                                    assert(q2 > before_step.last_pid());
                                    assert(q2 > taken.last_pid());
                                } else {
                                    assert(iter_pre.contains_pid(q2));
                                }
                            }
                        }
                    }
                    proof {
                        // Sweep completeness: every snapshot pid still present
                        // up to and including this one has been stepped.
                        assert(seg[seg.len() - 1] == p);
                        assert(seg.contains(p));
                        assert forall|m: int|
                            0 <= m <= idx && self.contains_pid(#[trigger] pids@[m]) implies seg
                            .contains(pids@[m]) by {
                            let q2 = pids@[m];
                            assert(orig.procs()[m].pid == q2);
                            assert(q2 <= orig.last_pid());
                            if m < idx as int {
                                assert(q2 != p) by {
                                    assert(orig.procs()[m].pid < orig.procs()[idx as int].pid);
                                }
                                assert(iter_pre.contains_pid(q2)) by {
                                    if !killed {
                                        assert(self.contains_pid(q2) <==> stepped_st
                                            .contains_pid(q2) || q2 == rec.pid);
                                    }
                                    assert(stepped_st.procs() == after_step.procs());
                                    assert(after_step.contains_pid(q2));
                                    assert(before_step.contains_pid(q2) || q2 > before_step
                                        .last_pid());
                                    assert(before_step.procs() == taken.procs());
                                    assert(taken.contains_pid(q2));
                                }
                                assert(seg0.contains(q2));
                                let j = choose|j: int|
                                    0 <= j < seg0.len() && #[trigger] seg0[j] == q2;
                                assert(seg == seg0.push(p));
                                assert(seg[j] == q2);
                            }
                        }
                        assert(orig.msgs().is_prefix_of(self.msgs())) by {
                            let extra = choose|extra: Seq<(usize, MessageV)>|
                                after_step.msgs() == #[trigger] (before_step.msgs() + extra);
                            assert(self.msgs() == before_step.msgs() + extra);
                            assert(before_step.msgs() == iter_pre.msgs());
                            assert(iter_pre.msgs().subrange(0, orig.msgs().len() as int)
                                =~= orig.msgs());
                            assert(self.msgs().subrange(0, orig.msgs().len() as int)
                                =~= orig.msgs());
                        }
                    }
                },
                Option::None => {
                    proof {
                        assert forall|m: int|
                            0 <= m <= idx && self.contains_pid(#[trigger] pids@[m]) implies seg
                            .contains(pids@[m]) by {
                            if m == idx as int {
                                assert(!self.contains_pid(pids@[m]));
                            }
                        }
                    }
                },
            }
            proof {
                if seg.len() > 0 && idx + 1 < pids@.len() {
                    assert(orig.procs()[idx as int].pid < orig.procs()[idx + 1].pid);
                    assert(pids@[idx as int] < pids@[idx + 1]);
                }
            }
            idx = idx + 1;
        }
        let ghost before_drain = *self;
        self.deliver_messages();
        proof {
            assert(self.stepped() =~= orig.stepped() + seg);
            assert(self.assigned() =~= orig.assigned() + aseg);
            let q = before_drain.msgs();
            let live = Set::<usize>::new(|p: usize| before_drain.contains_pid(p));
            assert forall|p: usize| #[trigger] live.contains(p) implies orig.contains_pid(p) || p
                > orig.last_pid() by {}
            assert(before_drain.msgs().filter(|e: (usize, MessageV)| before_drain.contains_pid(e.0))
                =~= q.filter(|e: (usize, MessageV)| live.contains(e.0))) by {
                assert forall|e: (usize, MessageV)|
                    #[trigger] live.contains(e.0) == before_drain.contains_pid(e.0) by {}
                lemma_filter_same_pred(
                    q,
                    |e: (usize, MessageV)| before_drain.contains_pid(e.0),
                    |e: (usize, MessageV)| live.contains(e.0),
                );
            }
            assert(self.delivered() == orig.delivered() + delivered_of(q, live));
            assert forall|p2: usize| #[trigger] live.contains(p2) <==> self.contains_pid(
                p2,
            ) by {
                assert(before_drain.contains_pid(p2) <==> self.contains_pid(p2));
            }
            assert forall|p2: usize|
                orig.contains_pid(p2) && self.contains_pid(p2) implies seg.contains(p2) by {
                let m = choose|m: int|
                    0 <= m < orig.procs().len() && (#[trigger] orig.procs()[m]).pid == p2;
                assert(pids@[m] == p2);
                assert(before_drain.contains_pid(p2));
            }
            assert(self.died() =~= orig.died() + dseg);
            assert forall|i2: int|
                0 <= i2 < dseg.len() implies !self.contains_pid(#[trigger] dseg[i2]) by {
                assert(!before_drain.contains_pid(dseg[i2]));
            }
        }
    }
}

/// Filtering by predicates that agree on every element gives equal results.
proof fn lemma_filter_same_pred(
    s: Seq<(usize, MessageV)>,
    p1: spec_fn((usize, MessageV)) -> bool,
    p2: spec_fn((usize, MessageV)) -> bool,
)
    requires
        forall|e: (usize, MessageV)| #[trigger] p1(e) == #[trigger] p2(e),
    ensures
        s.filter(p1) == s.filter(p2),
    decreases s.len(),
{
    reveal(Seq::filter);
    if s.len() > 0 {
        lemma_filter_same_pred(s.drop_last(), p1, p2);
    }
}

/// Well-formedness carries over to a kernel whose table, allocator state and
/// filesystem are unchanged.
proof fn lemma_wf_preserved(a: Kernel, b: Kernel)
    requires
        a.wf(),
        b.procs() == a.procs(),
        b.last_pid() == a.last_pid(),
        b.assigned() == a.assigned(),
        b.fs_state().wf(),
    ensures
        b.wf(),
{
}

/// Law: pids are assigned from a strictly increasing counter and never
/// reused. Over any sequence of kernel operations, the allocation log is
/// strictly increasing — even after intervening kills — and every allocated
/// pid and every table pid stays at or below the allocation mark, so a fresh
/// pid can collide with neither.
pub proof fn lemma_assigned_pids_strictly_increase(k: Kernel)
    requires
        k.wf(),
    ensures
        forall|i: int, j: int|
            0 <= i < j < k.assigned().len() ==> #[trigger] k.assigned()[i] < #[trigger] k.assigned()[j],
        forall|i: int| 0 <= i < k.assigned().len() ==> #[trigger] k.assigned()[i] <= k.last_pid(),
        forall|p: usize| #[trigger] k.contains_pid(p) ==> p <= k.last_pid(),
{
    assert forall|p: usize| #[trigger] k.contains_pid(p) implies p <= k.last_pid() by {
        let i = choose|i: int| 0 <= i < k.procs().len() && (#[trigger] k.procs()[i]).pid == p;
        assert(k.procs()[i].pid <= k.last_pid());
    }
}

/// Law: once a pid has been removed from the table, a later tick neither
/// steps it nor delivers to it. Stated over the effects a tick guarantees:
/// the pids stepped come from the table at the start of the tick, and the
/// delivered messages go to targets live at drain time, none of which can be
/// the removed pid (a respawn would exceed the old allocation mark).
pub proof fn lemma_killed_pid_not_scheduled(
    pre: Kernel,
    p: usize,
    seg: Seq<usize>,
    q: Seq<(usize, MessageV)>,
    live: Set<usize>,
)
    requires
        pre.wf(),
        !pre.contains_pid(p),
        p <= pre.last_pid(),
        forall|i: int| 0 <= i < seg.len() ==> pre.contains_pid(#[trigger] seg[i]),
        forall|pp: usize|
            #[trigger] live.contains(pp) ==> pre.contains_pid(pp) || pp > pre.last_pid(),
    ensures
        forall|i: int| 0 <= i < seg.len() ==> #[trigger] seg[i] != p,
        !live.contains(p),
        forall|i: int|
            0 <= i < delivered_of(q, live).len() ==> (#[trigger] delivered_of(q, live)[i]).0 != p,
{
    assert forall|i: int|
        0 <= i < delivered_of(q, live).len() implies (#[trigger] delivered_of(q, live)[i]).0
        != p by {
        q.lemma_filter_pred(|e: (usize, MessageV)| live.contains(e.0), i);
    }
}

/// Law: message delivery order within one tick equals enqueue order. What a
/// drain delivers is the queue it started with, filtered to live targets,
/// head first: two messages to live targets appear in the delivered log in
/// their enqueue order.
pub proof fn lemma_delivery_keeps_order(
    q: Seq<(usize, MessageV)>,
    live: Set<usize>,
    i: int,
    j: int,
)
    requires
        0 <= i < j < q.len(),
        live.contains(q[i].0),
        live.contains(q[j].0),
    ensures
        exists|a: int, b: int|
            0 <= a < b < delivered_of(q, live).len() && #[trigger] delivered_of(q, live)[a] == q[i]
                && #[trigger] delivered_of(q, live)[b] == q[j],
    decreases q.len(),
{
    reveal(Seq::filter);
    let pred = |e: (usize, MessageV)| live.contains(e.0);
    if j == q.len() - 1 {
        let fdrop = q.drop_last().filter(pred);
        assert(q.filter(pred) == fdrop.push(q.last()));
        assert(q.drop_last()[i] == q[i]);
        q.drop_last().lemma_filter_contains(pred, i);
        let a = choose|a: int| 0 <= a < fdrop.len() && fdrop[a] == q.drop_last()[i];
        let b = fdrop.len() as int;
        assert(q.filter(pred)[a] == q[i]);
        assert(q.filter(pred)[b] == q[j]);
        assert(0 <= a < b < delivered_of(q, live).len());
    } else {
        lemma_delivery_keeps_order(q.drop_last(), live, i, j);
        let fdrop = q.drop_last().filter(pred);
        let (a, b) = choose|a: int, b: int|
            0 <= a < b < fdrop.len() && #[trigger] fdrop[a] == q.drop_last()[i]
                && #[trigger] fdrop[b] == q.drop_last()[j];
        if pred(q.last()) {
            assert(q.filter(pred) == fdrop.push(q.last()));
        } else {
            assert(q.filter(pred) == fdrop);
        }
        assert(delivered_of(q, live)[a] == q[i]);
        assert(delivered_of(q, live)[b] == q[j]);
        assert(0 <= a < b < delivered_of(q, live).len());
    }
}

} // verus!
