//! `exists <path>`: reports whether an entry with the given path exists.

use vstd::prelude::*;
use vstd::string::StringExecFns;
use crate::kernel::Kernel;
use crate::text::split_ws;
use crate::text::args_of;
use crate::text::split_ws_spec;
use crate::vfs::fs::is_folder_path_spec;
use crate::vfs::fs::SimpleFS;

verus! {

/// The `exists` command.
pub struct ExistsCommand;

/// The text `exists` answers for the given filesystem and command line.
pub open spec fn exists_output_spec(fs: SimpleFS, cmd: Seq<char>) -> Seq<char> {
    let args = args_of(cmd);
    if args.len() == 0 {
        "exists: missing operand"@
    } else {
        let dir = args[0];
        if !is_folder_path_spec(dir) {
            "exists: error checking existence of '"@ + dir + "': "@ + "InvalidPath"@
        } else if !fs.is_ready() {
            "exists: error checking existence of '"@ + dir + "': "@ + "StorageUninitialized"@
        } else if fs.contains_path(dir) {
            "Entry '"@ + dir + "' exists."@
        } else {
            "Entry '"@ + dir + "' does not exist."@
        }
    }
}

impl ExistsCommand {
    /// Answers whether the path named after the command word exists.
    pub fn execute(k: &mut Kernel, cmd: &str) -> (r: String)
        ensures
            *final(k) == *old(k),
            r@ == exists_output_spec(old(k).fs_state(), cmd@),
    {
        let toks = split_ws(cmd);
        proof {
            assert(toks@.map_values(|t: String| t@).len() == toks@.len());
        }
        if toks.len() <= 1 {
            proof {
                if split_ws_spec(cmd@).len() > 0 {
                    assert(args_of(cmd@).len() == 0);
                }
            }
            return "exists: missing operand".to_owned();
        }
        let dir_name = &toks[1];
        proof {
            assert(toks@.map_values(|t: String| t@)[1] == dir_name@);
            assert(args_of(cmd@)[0] == dir_name@);
        }
        match k.fs.path_exists(dir_name.as_str()) {
            Result::Ok(b) => {
                let mut r = String::from_str("Entry '");
                r.append(dir_name.as_str());
                if b {
                    r.append("' exists.");
                } else {
                    r.append("' does not exist.");
                }
                r
            },
            Result::Err(e) => {
                let mut r = String::from_str("exists: error checking existence of '");
                r.append(dir_name.as_str());
                r.append("': ");
                let n = e.kind_name();
                r.append(n.as_str());
                r
            },
        }
    }
}

} // verus!
