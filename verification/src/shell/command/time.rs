//! `time`: prints the kernel's wall-clock mirror.

use vstd::prelude::*;
use vstd::string::StringExecFns;
use crate::kernel::frame_all_but_console;
use crate::kernel::Kernel;
use crate::text::dec_str_i64;
use crate::text::i64_to_string;
use crate::text::split_ws;
use crate::text::args_of;

verus! {

/// The `time` command.
pub struct TimeCommand;

/// The text `time` appends to the console.
pub open spec fn time_output_spec(timestamp: Seq<char>, time: i64) -> Seq<char> {
    "\nSystem clock:\nTimestamp: "@ + timestamp + "\nUNIX Epoch (mills): "@ + dec_str_i64(
        time as int,
    ) + "\n"@
}

impl TimeCommand {
    /// Prints the kernel's current timestamp and epoch milliseconds.
    pub fn execute(k: &mut Kernel, cmd: &str) -> (r: String)
        ensures
            r@ == (if args_of(cmd@).len() > 0 {
                "time: too many arguments"@
            } else {
                Seq::<char>::empty()
            }),
            args_of(cmd@).len() > 0 ==> *final(k) == *old(k),
            args_of(cmd@).len() == 0 ==> final(k).console_text() == old(
                k,
            ).console_text() + time_output_spec(old(k).timestamp_view(), old(k).time_spec())
                && frame_all_but_console(*old(k), *final(k)),
            old(k).wf() ==> final(k).wf(),
    {
        let toks = split_ws(cmd);
        proof {
            assert(toks@.map_values(|t: String| t@).len() == toks@.len());
        }
        if toks.len() > 1 {
            return "time: too many arguments".to_owned();
        }
        let time = k.get_time();
        let timestamp = k.get_timestamp();
        let mut out = String::from_str("\nSystem clock:\nTimestamp: ");
        out.append(timestamp.as_str());
        out.append("\nUNIX Epoch (mills): ");
        let t = i64_to_string(time);
        out.append(t.as_str());
        out.append("\n");
        k.print(out.as_str());
        String::new()
    }
}

} // verus!
