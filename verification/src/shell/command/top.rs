//! `top`: prints the process table, one row per process.

use vstd::prelude::*;
use vstd::string::StringExecFns;
use crate::kernel::frame_all_but_console;
use crate::kernel::Kernel;
use crate::process::ProcessRecord;
use crate::text::dec_str;
use crate::text::pad_right;
use crate::text::pad_right_spec;
use crate::text::split_ws;
use crate::text::args_of;
use crate::text::u64_to_string;

verus! {

/// The `top` command.
pub struct TopCommand;

/// One table row: padded process name, padded pid, newline.
pub open spec fn top_row_spec(r: ProcessRecord) -> Seq<char> {
    pad_right_spec(r.body.name_spec(), 30) + " "@ + pad_right_spec(dec_str(r.pid as nat), 30)
        + "\n"@
}

/// The table rows for the given records, in order.
pub open spec fn top_rows_spec(procs: Seq<ProcessRecord>) -> Seq<char>
    decreases procs.len(),
{
    if procs.len() == 0 {
        Seq::<char>::empty()
    } else {
        top_rows_spec(procs.drop_last()) + top_row_spec(procs.last())
    }
}

/// The full text `top` appends to the console.
pub open spec fn top_output_spec(procs: Seq<ProcessRecord>) -> Seq<char> {
    "\n"@ + pad_right_spec("Process Name"@, 30) + " "@ + pad_right_spec("PID"@, 30) + "\n"@
        + top_rows_spec(procs)
}

impl TopCommand {
    /// Prints the process table: name and pid of every schedulable process,
    /// in ascending pid order.
    pub fn execute(k: &mut Kernel, cmd: &str) -> (r: String)
        ensures
            r@ == (if args_of(cmd@).len() > 0 {
                "top: too many arguments"@
            } else {
                Seq::<char>::empty()
            }),
            args_of(cmd@).len() > 0 ==> *final(k) == *old(k),
            args_of(cmd@).len() == 0 ==> final(k).console_text() == old(
                k,
            ).console_text() + top_output_spec(old(k).procs()) && frame_all_but_console(
                *old(k),
                *final(k),
            ),
            old(k).wf() ==> final(k).wf(),
    {
        let toks = split_ws(cmd);
        proof {
            assert(toks@.map_values(|t: String| t@).len() == toks@.len());
        }
        if toks.len() > 1 {
            return "top: too many arguments".to_owned();
        }
        let mut out = String::from_str("\n");
        let h1 = pad_right("Process Name", 30);
        out.append(h1.as_str());
        out.append(" ");
        let h2 = pad_right("PID", 30);
        out.append(h2.as_str());
        out.append("\n");
        let ghost header = out@;
        let n = k.proc_count();
        let mut i: usize = 0;
        while i < n
            invariant
                i <= n,
                n == k.procs().len(),
                out@ =~= header + top_rows_spec(k.procs().take(i as int)),
        decreases n - i,
        {
            let (name, pid) = k.proc_name_pid(i);
            let p1 = pad_right(name.as_str(), 30);
            out.append(p1.as_str());
            out.append(" ");
            let pid_text = u64_to_string(pid as u64);
            let p2 = pad_right(pid_text.as_str(), 30);
            out.append(p2.as_str());
            out.append("\n");
            proof {
                let t1 = k.procs().take(i + 1);
                assert(t1.drop_last() =~= k.procs().take(i as int));
                assert(t1.last() == k.procs()[i as int]);
            }
            i = i + 1;
        }
        proof {
            assert(k.procs().take(n as int) =~= k.procs());
        }
        k.print(out.as_str());
        String::new()
    }
}

} // verus!
