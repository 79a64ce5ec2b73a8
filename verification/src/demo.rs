//! The self-terminating demo process: it takes the shell's prompt away on its
//! first step, counts down a fixed lifetime, and on reaching zero hands the
//! prompt back and kills itself — coordinating with the shell purely through
//! the message bus.

use vstd::prelude::*;
use vstd::string::StringExecFns;
use crate::kernel::Kernel;
use crate::kernel::Message;
use crate::kernel::MessageV;
use crate::text::dec_str;
use crate::text::u64_to_string;

verus! {

/// The number of ticks a demo process lives.
pub const DEMO_LIFE: u32 = 120;

/// Mathematical image of [`DemoProcess`].
pub struct DemoV {
    pub pid: usize,
    pub counter: u32,
    pub life: u32,
    pub shell_pid: usize,
}

/// The demo process; `shell_pid` addresses the shell it coordinates with.
pub struct DemoProcess {
    pub(crate) pid: usize,
    pub(crate) counter: u32,
    pub(crate) life: u32,
    pub(crate) shell_pid: usize,
}

impl View for DemoProcess {
    type V = DemoV;

    closed spec fn view(&self) -> DemoV {
        DemoV { pid: self.pid, counter: self.counter, life: self.life, shell_pid: self.shell_pid }
    }
}

impl DemoProcess {
    /// A fresh demo process, coordinating with the shell at `shell_pid`.
    pub fn new(shell_pid: usize) -> (r: Self)
        ensures
            r@ == (DemoV { pid: 0, counter: 0, life: DEMO_LIFE, shell_pid: shell_pid }),
    {
        DemoProcess { pid: 0, counter: 0, life: DEMO_LIFE, shell_pid: shell_pid }
    }

    pub fn pid(&self) -> (r: usize)
        ensures
            r == self@.pid,
    {
        self.pid
    }

    pub fn set_pid(&mut self, pid: usize)
        ensures
            final(self)@ == (DemoV { pid: pid, ..old(self)@ }),
    {
        self.pid = pid;
    }

    /// One step of the demo process.
    ///
    /// On its first step (full lifetime left) it sends
    /// `SetWaitingForInput(false)` to the shell. With its lifetime exhausted
    /// it sends `SetWaitingForInput(true)` and kills its own pid, changing
    /// nothing else. Otherwise it prints a progress line every thirtieth
    /// step, then counts down.
    pub fn tick(&mut self, k: &mut Kernel)
        requires
            old(k).wf(),
            old(k).stepping_at() == Option::<usize>::Some(old(self)@.pid),
            old(self)@.counter < u32::MAX,
        ensures
            final(k).wf(),
            final(self)@.pid == old(self)@.pid,
            final(self)@.shell_pid == old(self)@.shell_pid,
            old(self)@.life == 0 ==> *final(self) == *old(self) && final(k).msgs() == old(
                k,
            ).msgs().push(
                (old(self)@.shell_pid, MessageV::SetWaitingForInput(true)),
            ) && final(k).kill_flag() && final(k).died() == old(k).died().push(old(self)@.pid)
                && frame_all_but_msgs_and_kill(*old(k), *final(k)),
            old(self)@.life != 0 ==> final(self)@.counter == old(self)@.counter + 1
                && final(self)@.life == old(self)@.life - 1,
            old(self)@.life != 0 ==> final(k).msgs() == (if old(self)@.life == DEMO_LIFE {
                old(k).msgs().push((old(self)@.shell_pid, MessageV::SetWaitingForInput(false)))
            } else {
                old(k).msgs()
            }),
            old(self)@.life != 0 ==> final(k).console_text() == old(k).console_text()
                + demo_step_text(old(self)@.counter, old(self)@.life),
            old(self)@.life != 0 ==> final(k).kill_flag() == old(k).kill_flag()
                && frame_all_but_msgs_and_console(*old(k), *final(k)),
    {
        let ghost pre_k = *k;
        if self.life == DEMO_LIFE {
            k.send(self.pid_to_shell(), Message::SetWaitingForInput(false));
        }
        if self.life == 0 {
            k.send(self.pid_to_shell(), Message::SetWaitingForInput(true));
            k.kill(self.pid);
            return;
        }
        let ghost mid_k = *k;
        if self.counter % 30 == 0 {
            let mut line = String::from_str("\n[demo] tick ");
            let c = u64_to_string(self.counter as u64);
            line.append(c.as_str());
            line.append(" (");
            let l = u64_to_string(self.life as u64);
            line.append(l.as_str());
            line.append(" left)\n");
            k.print(line.as_str());
            if self.life == 30 {
                k.print("[demo] demo process is about to terminate...");
                k.print("\n");
                proof {
                    assert(k.console_text() =~= mid_k.console_text() + demo_step_text(
                        self@.counter,
                        self@.life,
                    ));
                }
            } else {
                proof {
                    assert(k.console_text() =~= mid_k.console_text() + demo_step_text(
                        self@.counter,
                        self@.life,
                    ));
                }
            }
        } else {
            proof {
                assert(k.console_text() =~= mid_k.console_text() + demo_step_text(
                    self@.counter,
                    self@.life,
                ));
            }
        }
        self.counter = self.counter + 1;
        self.life = self.life - 1;
    }

    /// The pid of the shell this demo process coordinates with.
    fn pid_to_shell(&self) -> (r: usize)
        ensures
            r == self@.shell_pid,
    {
        self.shell_pid
    }
}

/// The progress text one demo step appends to the console: a line every
/// thirtieth step, plus a farewell when thirty steps remain.
pub open spec fn demo_step_text(counter: u32, life: u32) -> Seq<char> {
    if counter % 30 == 0 {
        "\n[demo] tick "@ + dec_str(counter as nat) + " ("@ + dec_str(life as nat) + " left)\n"@
            + (if life == 30 {
            "[demo] demo process is about to terminate..."@ + "\n"@
        } else {
            Seq::<char>::empty()
        })
    } else {
        Seq::<char>::empty()
    }
}

/// Everything apart from the message queue and the kill flag is unchanged.
pub open spec fn frame_all_but_msgs_and_kill(a: Kernel, b: Kernel) -> bool {
    &&& b.procs() == a.procs()
    &&& b.last_pid() == a.last_pid()
    &&& b.assigned() == a.assigned()
    &&& b.console_text() == a.console_text()
    &&& b.fs_state() == a.fs_state()
    &&& b.ticks() == a.ticks()
    &&& b.time_spec() == a.time_spec()
    &&& b.timestamp_view() == a.timestamp_view()
    &&& b.stepping_at() == a.stepping_at()
    &&& b.stepped() == a.stepped()
    &&& b.delivered() == a.delivered()
}

/// Everything apart from the message queue and the console is unchanged.
pub open spec fn frame_all_but_msgs_and_console(a: Kernel, b: Kernel) -> bool {
    &&& b.procs() == a.procs()
    &&& b.died() == a.died()
    &&& b.last_pid() == a.last_pid()
    &&& b.assigned() == a.assigned()
    &&& b.fs_state() == a.fs_state()
    &&& b.ticks() == a.ticks()
    &&& b.time_spec() == a.time_spec()
    &&& b.timestamp_view() == a.timestamp_view()
    &&& b.stepping_at() == a.stepping_at()
    &&& b.stepped() == a.stepped()
    &&& b.delivered() == a.delivered()
}

} // verus!
