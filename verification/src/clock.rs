//! The system-clock process: once per tick it renders the kernel's host-fed
//! wall-clock mirror into the timestamp mirror, keeping the two consistent.

use vstd::prelude::*;
use crate::kernel::frame_all_but_clock;
use crate::kernel::Kernel;
use crate::process::ProcessBody;
use crate::calendar::clock_text;
use crate::calendar::clock_text_of;

verus! {

/// Mathematical image of [`SystemClockProcess`].
pub struct SystemClockV {
    pub pid: usize,
    pub name: Seq<char>,
}

/// The periodic system-clock updater.
pub struct SystemClockProcess {
    pub(crate) pid: usize,
    pub(crate) name: String,
}

impl View for SystemClockProcess {
    type V = SystemClockV;

    closed spec fn view(&self) -> SystemClockV {
        SystemClockV { pid: self.pid, name: self.name@ }
    }
}

impl SystemClockProcess {
    /// A fresh clock process, not yet installed in the table.
    pub fn new() -> (r: Self)
        ensures
            r@.pid == 0,
            r@.name == "system_clock"@,
    {
        SystemClockProcess { pid: 0, name: "system_clock".to_owned() }
    }

    pub fn pid(&self) -> (r: usize)
        ensures
            r == self@.pid,
    {
        self.pid
    }

    pub fn set_pid(&mut self, pid: usize)
        ensures
            final(self)@ == (SystemClockV { pid: pid, ..old(self)@ }),
    {
        self.pid = pid;
    }

    pub fn name(&self) -> (r: String)
        ensures
            r@ == self@.name,
    {
        self.name.clone()
    }

    /// One step: renders the wall-clock mirror (which the host feeds through
    /// `set_time`) into the kernel's timestamp mirror.
    pub fn tick(&mut self, k: &mut Kernel)
        ensures
            *final(self) == *old(self),
            final(k).time_spec() == old(k).time_spec(),
            final(k).timestamp_view() == clock_text_of(old(k).time_spec() as int),
            frame_all_but_clock(*old(k), *final(k)),
            old(k).wf() ==> final(k).wf(),
    {
        let t = k.get_time();
        let stamp = clock_text(t);
        k.set_timestamp(stamp);
    }
}

/// The clock process the kernel installs at startup.
pub fn init() -> (r: ProcessBody)
    ensures
        r is SystemClock,
        r->SystemClock_0@ == (SystemClockV { pid: 0, name: "system_clock"@ }),
{
    ProcessBody::SystemClock(SystemClockProcess::new())
}

} // verus!
