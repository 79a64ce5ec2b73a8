//! The process abstraction: a closed set of schedulable variants, each with
//! identity, a per-tick step, and an optional message handler.
//!
//! Dynamic dispatch is a closed enum rather than an open trait object: the
//! kernel schedules exactly these variants, and each step's effect on the
//! kernel is bounded by [`step_frame`].

use vstd::prelude::*;
use crate::kernel::Kernel;
use crate::kernel::Message;
use crate::kernel::MessageV;
use crate::clock::SystemClockProcess;
use crate::clock::SystemClockV;
use crate::demo::DemoProcess;
use crate::demo::DemoV;
use crate::shell::Shell;
use crate::shell::ShellV;

verus! {

/// One schedulable process implementation.
pub enum ProcessBody {
    Shell(Shell),
    SystemClock(SystemClockProcess),
    Demo(DemoProcess),
}

impl ProcessBody {
    /// The pid this process believes it has.
    pub open spec fn pid_spec(&self) -> usize {
        match self {
            ProcessBody::Shell(s) => s@.pid,
            ProcessBody::SystemClock(c) => c@.pid,
            ProcessBody::Demo(d) => d@.pid,
        }
    }

    /// The pid accessor every process exposes.
    pub fn pid(&self) -> (r: usize)
        ensures
            r == self.pid_spec(),
    {
        match self {
            ProcessBody::Shell(s) => s.pid(),
            ProcessBody::SystemClock(c) => c.pid(),
            ProcessBody::Demo(d) => d.pid(),
        }
    }

    /// Sets the process identity; the kernel calls this exactly once at
    /// spawn time.
    pub fn set_pid(&mut self, pid: usize)
        ensures
            same_but_pid(*old(self), *final(self), pid),
    {
        match self {
            ProcessBody::Shell(s) => s.set_pid(pid),
            ProcessBody::SystemClock(c) => c.set_pid(pid),
            ProcessBody::Demo(d) => d.set_pid(pid),
        }
    }

    /// The display name of the process, as `top` reports it.
    pub open spec fn name_spec(&self) -> Seq<char> {
        match self {
            ProcessBody::Shell(_) => "shell"@,
            ProcessBody::SystemClock(c) => c@.name,
            ProcessBody::Demo(_) => "demo"@,
        }
    }

    /// The display name of the process.
    pub fn name(&self) -> (r: String)
        ensures
            r@ == self.name_spec(),
    {
        match self {
            ProcessBody::Shell(_) => "shell".to_owned(),
            ProcessBody::SystemClock(c) => c.name(),
            ProcessBody::Demo(_) => "demo".to_owned(),
        }
    }
}

/// The structural invariant of a process body: a demo process's counter and
/// remaining lifetime always account for its whole lifetime.
pub open spec fn body_inv(b: ProcessBody) -> bool {
    match b {
        ProcessBody::Demo(d) => d@.counter + d@.life == crate::demo::DEMO_LIFE,
        _ => true,
    }
}

/// `b` is `a` with its pid set to `pid` and nothing else changed.
pub open spec fn same_but_pid(a: ProcessBody, b: ProcessBody, pid: usize) -> bool {
    &&& b.pid_spec() == pid
    &&& (a is Shell <==> b is Shell)
    &&& (a is SystemClock <==> b is SystemClock)
    &&& (a is Demo <==> b is Demo)
    &&& (a is Shell ==> b->Shell_0@ == (ShellV { pid: pid, ..a->Shell_0@ }))
    &&& (a is SystemClock ==> b->SystemClock_0@ == (SystemClockV { pid: pid, ..a->SystemClock_0@ }))
    &&& (a is Demo ==> b->Demo_0@ == (DemoV { pid: pid, ..a->Demo_0@ }))
}

/// What any one step may do to the kernel handed to it: it may print, use
/// the filesystem and the clock mirrors, enqueue messages at the tail, spawn
/// at most one fresh process, and request kills — but it can never touch the
/// tick counter, the ghost logs, or a pid at or below the allocation mark it
/// started from.
pub open spec fn step_frame(pre: Kernel, post: Kernel) -> bool {
    &&& post.wf()
    &&& pre.last_pid() <= post.last_pid()
    &&& post.last_pid() <= pre.last_pid() + 1
    &&& (post.assigned() == pre.assigned() || post.assigned() == pre.assigned().push(
        ((pre.last_pid() + 1) as usize),
    ))
    &&& post.stepped() == pre.stepped()
    &&& post.delivered() == pre.delivered()
    &&& post.ticks() == pre.ticks()
    &&& post.stepping_at() == pre.stepping_at()
    &&& (pre.kill_flag() ==> post.kill_flag())
    &&& (post.died() == pre.died() || (post.kill_flag() && (pre.stepping_at() matches Option::Some(
        sp,
    ) && post.died() == pre.died().push(sp))))
    &&& exists|extra: Seq<(usize, MessageV)>| post.msgs() == #[trigger] (pre.msgs() + extra)
    &&& forall|p: usize|
        post.contains_pid(p) ==> #[trigger] pre.contains_pid(p) || p > pre.last_pid()
}

/// What any one message handler may do to the kernel: append to the console,
/// and nothing else.
pub open spec fn msg_frame(pre: Kernel, post: Kernel) -> bool {
    &&& post.wf()
    &&& post.procs() == pre.procs()
    &&& post.last_pid() == pre.last_pid()
    &&& post.assigned() == pre.assigned()
    &&& post.stepped() == pre.stepped()
    &&& post.delivered() == pre.delivered()
    &&& post.ticks() == pre.ticks()
    &&& post.stepping_at() == pre.stepping_at()
    &&& post.kill_flag() == pre.kill_flag()
    &&& post.died() == pre.died()
    &&& post.msgs() == pre.msgs()
    &&& post.fs_state() == pre.fs_state()
    &&& post.time_spec() == pre.time_spec()
    &&& post.timestamp_view() == pre.timestamp_view()
    &&& exists|extra: Seq<char>| post.console_text() == #[trigger] (pre.console_text() + extra)
}

impl ProcessBody {
    /// One scheduled step of this process, with mutable kernel access.
    pub fn step(&mut self, k: &mut Kernel)
        requires
            old(k).wf(),
            old(k).stepping_at() == Option::<usize>::Some(old(self).pid_spec()),
            old(k).last_pid() < usize::MAX,
            body_inv(*old(self)),
        ensures
            step_frame(*old(k), *final(k)),
            final(self).pid_spec() == old(self).pid_spec(),
            body_inv(*final(self)),
    {
        let ghost pre = *k;
        match self {
            ProcessBody::Shell(s) => {
                s.tick(k);
                proof {
                    assert(k.msgs() =~= pre.msgs() + Seq::<(usize, MessageV)>::empty());
                }
            },
            ProcessBody::SystemClock(c) => {
                c.tick(k);
                proof {
                    assert(k.msgs() =~= pre.msgs() + Seq::<(usize, MessageV)>::empty());
                    assert forall|p: usize| k.contains_pid(p) implies pre.contains_pid(p) by {}
                }
            },
            ProcessBody::Demo(d) => {
                d.tick(k);
                proof {
                    if (*old(self))->Demo_0@.life == 0 {
                        assert(k.msgs() =~= pre.msgs() + seq![
                            ((*old(self))->Demo_0@.shell_pid, MessageV::SetWaitingForInput(true)),
                        ]);
                    } else if (*old(self))->Demo_0@.life == crate::demo::DEMO_LIFE {
                        assert(k.msgs() =~= pre.msgs() + seq![
                            ((*old(self))->Demo_0@.shell_pid, MessageV::SetWaitingForInput(false)),
                        ]);
                    } else {
                        assert(k.msgs() =~= pre.msgs() + Seq::<(usize, MessageV)>::empty());
                    }
                    assert forall|p: usize| k.contains_pid(p) implies pre.contains_pid(p) by {}
                }
            },
        }
    }

    /// Handles one delivered message; processes without a handler ignore it.
    pub fn on_message(&mut self, k: &mut Kernel, msg: Message)
        requires
            old(k).wf(),
        ensures
            msg_frame(*old(k), *final(k)),
            final(self).pid_spec() == old(self).pid_spec(),
            body_inv(*old(self)) ==> body_inv(*final(self)),
            (*old(self)) is Shell ==> (*final(self)) is Shell && (match msg@ {
                MessageV::SetWaitingForInput(b) => (*final(self))->Shell_0@ == (
                crate::shell::ShellV {
                    waiting_for_input: b,
                    ..(*old(self))->Shell_0@
                }) && *final(k) == *old(k),
                MessageV::Print(s) => (*final(self))->Shell_0@ == (*old(self))->Shell_0@
                    && final(k).console_text() == old(k).console_text() + s,
                MessageV::Kill => (*final(self))->Shell_0@ == (*old(self))->Shell_0@ && *final(k)
                    == *old(k),
            }),
            !((*old(self)) is Shell) ==> *final(self) == *old(self) && *final(k) == *old(k),
    {
        let ghost pre = *k;
        match self {
            ProcessBody::Shell(s) => {
                s.on_message(k, msg);
                proof {
                    match msg@ {
                        MessageV::Print(txt) => {
                            assert(k.console_text() == pre.console_text() + txt);
                        },
                        _ => {
                            assert(k.console_text() =~= pre.console_text()
                                + Seq::<char>::empty());
                        },
                    }
                }
            },
            ProcessBody::SystemClock(_) => {
                proof {
                    assert(k.console_text() =~= pre.console_text() + Seq::<char>::empty());
                }
            },
            ProcessBody::Demo(_) => {
                proof {
                    assert(k.console_text() =~= pre.console_text() + Seq::<char>::empty());
                }
            },
        }
    }
}

/// A row of the process table: an immutable identity and the implementation.
pub struct ProcessRecord {
    pub pid: usize,
    pub body: ProcessBody,
}

} // verus!
