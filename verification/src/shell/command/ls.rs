//! `ls [-a]`: lists the entries under the root range, with creation and
//! modification stamps; `-a` lists bare paths.

use vstd::prelude::*;
use vstd::string::StringExecFns;
use crate::kernel::frame_all_but_console;
use crate::kernel::Kernel;
use crate::text::args_of;
use crate::text::pad_right;
use crate::text::pad_right_spec;
use crate::text::split_ws;
use crate::text::split_ws_spec;
use crate::text::str_eq;
use crate::vfs::entry::FSEntryV;
use crate::vfs::fs::SimpleFS;
use crate::calendar::format_minutes;
use crate::calendar::minute_text_of;
use crate::calendar::renderable;

verus! {

/// The `ls` command.
pub struct LsCommand;

/// The text shown for a stored millisecond stamp: the minute-precision
/// rendering where the value is in the renderable window, a placeholder
/// otherwise.
pub open spec fn time_cell_spec(ts: u64) -> Seq<char> {
    if ts <= i64::MAX as u64 && renderable(ts as int) {
        minute_text_of(ts as int)
    } else {
        "Unknown"@
    }
}

/// Renders a stored millisecond stamp for a listing row.
fn time_cell(ts: u64) -> (r: String)
    ensures
        r@ == time_cell_spec(ts),
{
    if ts > 0x7fff_ffff_ffff_ffffu64 {
        return "Unknown".to_owned();
    }
    match format_minutes(ts as i64) {
        Option::Some(s) => s,
        Option::None => "Unknown".to_owned(),
    }
}

/// One listing row.
pub open spec fn ls_row_spec(e: FSEntryV, all: bool) -> Seq<char> {
    if all {
        e.abs_path
    } else {
        pad_right_spec(e.abs_path, 30) + " "@ + pad_right_spec(
            time_cell_spec(e.entry.metadata().created_at),
            20,
        ) + " "@ + pad_right_spec(time_cell_spec(e.entry.metadata().modified_at), 20)
    }
}

/// The listing rows, one per entry, joined by line breaks.
pub open spec fn ls_rows_spec(entries: Seq<FSEntryV>, all: bool) -> Seq<char>
    decreases entries.len(),
{
    if entries.len() == 0 {
        Seq::<char>::empty()
    } else if entries.len() == 1 {
        ls_row_spec(entries[0], all)
    } else {
        ls_rows_spec(entries.drop_last(), all) + "\n"@ + ls_row_spec(entries.last(), all)
    }
}

/// The column header `ls` prints.
pub open spec fn ls_header_spec() -> Seq<char> {
    "\n"@ + pad_right_spec("Name"@, 30) + " "@ + pad_right_spec("Created At"@, 20) + " "@
        + pad_right_spec("Modified At"@, 20)
}

/// The entries `ls` reports: the root-range listing, or nothing while the
/// store is not ready.
pub open spec fn ls_entries_spec(fs: SimpleFS) -> Seq<FSEntryV> {
    if fs.is_ready() {
        fs.listing("/"@)
    } else {
        Seq::<FSEntryV>::empty()
    }
}

/// Whether the command line asks for bare paths.
pub open spec fn ls_all_flag(cmd: Seq<char>) -> bool {
    exists|i: int|
        0 <= i < args_of(cmd).len() && (#[trigger] args_of(cmd)[i] == "-a"@ || args_of(cmd)[i]
            == "--all"@)
}

/// The first argument that is not a recognized flag, if any.
pub open spec fn ls_bad_arg(cmd: Seq<char>) -> Option<Seq<char>> {
    if exists|i: int|
        0 <= i < args_of(cmd).len() && !((#[trigger] args_of(cmd)[i]) == "-a"@ || args_of(cmd)[i]
            == "--all"@) {
        Option::Some(
            args_of(cmd)[choose|i: int|
                0 <= i < args_of(cmd).len() && !((#[trigger] args_of(cmd)[i]) == "-a"@ || args_of(
                    cmd,
                )[i] == "--all"@)],
        )
    } else {
        Option::None
    }
}

impl LsCommand {
    /// Prints the column header and returns the listing rows.
    #[verifier::rlimit(60)]
    pub fn execute(k: &mut Kernel, cmd: &str) -> (r: String)
        ensures
            ls_bad_arg(cmd@) is Some ==> *final(k) == *old(k) && r@ == "ls: unexpected argument"@,
            ls_bad_arg(cmd@) is None ==> final(k).console_text() == old(k).console_text()
                + ls_header_spec() && frame_all_but_console(*old(k), *final(k)) && r@
                == ls_rows_spec(ls_entries_spec(old(k).fs_state()), ls_all_flag(cmd@)),
            old(k).wf() ==> final(k).wf(),
    {
        let toks = split_ws(cmd);
        proof {
            assert(toks@.map_values(|t: String| t@).len() == toks@.len());
        }
        let mut all = false;
        let mut i: usize = 1;
        while i < toks.len()
            invariant
                1 <= i,
                i <= toks@.len() || toks@.len() == 0,
                toks@.map_values(|t: String| t@) == split_ws_spec(cmd@),
                forall|j: int|
                    0 <= j < i - 1 && j < args_of(cmd@).len() ==> ((#[trigger] args_of(cmd@)[j])
                        == "-a"@ || args_of(cmd@)[j] == "--all"@),
                all == exists|j: int|
                    0 <= j < i - 1 && j < args_of(cmd@).len() && ((#[trigger] args_of(cmd@)[j])
                        == "-a"@ || args_of(cmd@)[j] == "--all"@),
            decreases toks@.len() - i,
        {
            proof {
                assert(args_of(cmd@)[i - 1] == toks@.map_values(|t: String| t@)[i as int]);
            }
            if str_eq(toks[i].as_str(), "-a") || str_eq(toks[i].as_str(), "--all") {
                all = true;
            } else {
                proof {
                    assert(ls_bad_arg(cmd@) is Some);
                }
                return "ls: unexpected argument".to_owned();
            }
            i = i + 1;
        }
        proof {
            if ls_bad_arg(cmd@) is Some {
                let j = choose|j: int|
                    0 <= j < args_of(cmd@).len() && !((#[trigger] args_of(cmd@)[j]) == "-a"@
                        || args_of(cmd@)[j] == "--all"@);
                assert(j < i - 1);
                assert(false);
            }
            assert(all == ls_all_flag(cmd@));
        }
        proof {
            reveal_strlit("/");
            assert forall|ii: int| 0 <= ii < "/"@.len() implies #[trigger] crate::vfs::fs::ok_path_index(
                "/"@,
                ii,
            ) by {
                assert("/"@[0] == '/');
            }
            assert(crate::vfs::fs::is_folder_path_spec("/"@));
        }
        let entries = match k.fs.read_folder("/") {
            Result::Ok(v) => v,
            Result::Err(_) => {
                let v: Vec<crate::vfs::entry::FSEntry> = Vec::new();
                proof {
                    assert(crate::vfs::fs::entry_views(v@) =~= Seq::<FSEntryV>::empty());
                }
                v
            },
        };
        proof {
            assert(crate::vfs::fs::entry_views(entries@) == ls_entries_spec(k.fs_state()));
        }
        let mut header = String::from_str("\n");
        let h1 = pad_right("Name", 30);
        header.append(h1.as_str());
        header.append(" ");
        let h2 = pad_right("Created At", 20);
        header.append(h2.as_str());
        header.append(" ");
        let h3 = pad_right("Modified At", 20);
        header.append(h3.as_str());
        k.print(header.as_str());
        let ghost evs = crate::vfs::fs::entry_views(entries@);
        let mut out = String::new();
        let mut e: usize = 0;
        while e < entries.len()
            invariant
                e <= entries@.len(),
                evs == crate::vfs::fs::entry_views(entries@),
                out@ =~= ls_rows_spec(evs.take(e as int), all),
            decreases entries@.len() - e,
        {
            if e > 0 {
                out.append("\n");
            }
            if all {
                out.append(entries[e].abs_path.as_str());
            } else {
                let p1 = pad_right(entries[e].abs_path.as_str(), 30);
                out.append(p1.as_str());
                out.append(" ");
                let created = crate::vfs::entry::FSEntryTrait::created_at(&entries[e].entry);
                let c1 = time_cell(created);
                let c1p = pad_right(c1.as_str(), 20);
                out.append(c1p.as_str());
                out.append(" ");
                let modified = crate::vfs::entry::FSEntryTrait::modified_at(&entries[e].entry);
                let m1 = time_cell(modified);
                let m1p = pad_right(m1.as_str(), 20);
                out.append(m1p.as_str());
            }
            proof {
                let t1 = evs.take(e + 1);
                assert(t1.drop_last() =~= evs.take(e as int));
                assert(t1.last() == evs[e as int]);
                assert(evs[e as int] == entries@[e as int]@);
                assert(out@ =~= ls_rows_spec(evs.take(e + 1), all));
            }
            e = e + 1;
        }
        proof {
            assert(evs.take(entries@.len() as int) =~= evs);
        }
        out
    }
}

} // verus!
