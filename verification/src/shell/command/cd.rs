//! `cd <folder>`: changes the shell's working directory after checking that
//! the target exists.

use vstd::prelude::*;
use vstd::string::StringExecFns;
use crate::kernel::Kernel;
use crate::text::split_ws;
use crate::text::args_of;
use crate::text::split_ws_spec;
use crate::vfs::fs::is_folder_path_spec;
use crate::vfs::fs::SimpleFS;

verus! {

/// The `cd` command.
pub struct CdCommand;

/// The text `cd` answers for the given filesystem and command line.
pub open spec fn cd_output_spec(fs: SimpleFS, cmd: Seq<char>) -> Seq<char> {
    let args = args_of(cmd);
    if args.len() == 0 {
        "cd: missing operand"@
    } else if args.len() > 1 {
        "cd: too many arguments"@
    } else {
        let folder = args[0];
        if !is_folder_path_spec(folder) {
            "\nError checking existence of '"@ + folder + "': "@ + "InvalidPath"@ + "\n"@
        } else if !fs.is_ready() {
            "\nError checking existence of '"@ + folder + "': "@ + "StorageUninitialized"@ + "\n"@
        } else if !fs.contains_path(folder) {
            "\nError: folder '"@ + folder + "' does not exist.\n"@
        } else {
            "Changed directory to '"@ + folder + "'"@
        }
    }
}

/// Whether `cd` with this command line moves the working directory to
/// `args[0]`.
pub open spec fn cd_changes_dir(fs: SimpleFS, cmd: Seq<char>) -> bool {
    let args = args_of(cmd);
    args.len() == 1 && is_folder_path_spec(args[0]) && fs.is_ready() && fs.contains_path(args[0])
}

impl CdCommand {
    /// Moves the working directory held in `data` to the named folder, if it
    /// exists; otherwise reports why not and leaves `data` unchanged.
    pub fn execute_data(k: &mut Kernel, cmd: &str, data: &mut String) -> (r: String)
        ensures
            *final(k) == *old(k),
            r@ == cd_output_spec(old(k).fs_state(), cmd@),
            cd_changes_dir(old(k).fs_state(), cmd@) ==> final(data)@ == args_of(cmd@)[0],
            !cd_changes_dir(old(k).fs_state(), cmd@) ==> final(data)@ == old(data)@,
    {
        let toks = split_ws(cmd);
        proof {
            assert(toks@.map_values(|t: String| t@).len() == toks@.len());
        }
        if toks.len() <= 1 {
            proof {
                if split_ws_spec(cmd@).len() > 0 {
                    assert(args_of(cmd@).len() == 0);
                }
            }
            return "cd: missing operand".to_owned();
        }
        if toks.len() > 2 {
            return "cd: too many arguments".to_owned();
        }
        let folder = &toks[1];
        proof {
            assert(toks@.map_values(|t: String| t@)[1] == folder@);
            assert(args_of(cmd@)[0] == folder@);
        }
        match k.fs.path_exists(folder.as_str()) {
            Result::Err(e) => {
                let mut r = String::from_str("\nError checking existence of '");
                r.append(folder.as_str());
                r.append("': ");
                let n = e.kind_name();
                r.append(n.as_str());
                r.append("\n");
                r
            },
            Result::Ok(false) => {
                let mut r = String::from_str("\nError: folder '");
                r.append(folder.as_str());
                r.append("' does not exist.\n");
                r
            },
            Result::Ok(true) => {
                *data = folder.clone();
                let mut r = String::from_str("Changed directory to '");
                r.append(folder.as_str());
                r.append("'");
                r
            },
        }
    }
}

} // verus!
