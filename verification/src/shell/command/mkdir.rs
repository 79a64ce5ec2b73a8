//! `mkdir <folder>... [-v]`: creates folders, resolving relative names
//! against the shell's working directory, and reports each outcome.

use vstd::prelude::*;
use vstd::string::StringExecFns;
use crate::kernel::frame_all_but_console;
use crate::kernel::Kernel;
use crate::shell::Shell;
use crate::text::args_of;
use crate::text::dec_str;
use crate::text::split_ws;
use crate::text::split_ws_spec;
use crate::text::str_eq;
use crate::text::u64_to_string;
use crate::vfs::entry::FSEntryV;
use crate::vfs::errors::SimpleFSError;
use crate::vfs::fs::create_err_on;
use crate::vfs::fs::created_folder_entry;
use crate::vfs::fs::lemma_insert_contains;
use crate::vfs::fs::full_path_spec;
use crate::vfs::fs::is_absolute_path_spec;
use crate::vfs::fs::is_folder_path_spec;
use crate::vfs::fs::SimpleFS;

verus! {

/// The `mkdir` command.
pub struct MkDirCommand;

/// Whether a token is an option.
pub open spec fn is_flag(t: Seq<char>) -> bool {
    t.len() > 0 && t[0] == '-'
}

/// The folder operands: the arguments that are not options, in order.
pub open spec fn mkdir_folders(cmd: Seq<char>) -> Seq<Seq<char>> {
    args_of(cmd).filter(|t: Seq<char>| !is_flag(t))
}

/// Whether the verbose option is given.
pub open spec fn mkdir_verbose(cmd: Seq<char>) -> bool {
    exists|i: int|
        0 <= i < args_of(cmd).len() && is_flag(#[trigger] args_of(cmd)[i]) && (args_of(cmd)[i]
            == "-v"@ || args_of(cmd)[i] == "--verbose"@)
}

/// Whether some option is not recognized.
pub open spec fn mkdir_has_bad_flag(cmd: Seq<char>) -> bool {
    exists|i: int|
        0 <= i < args_of(cmd).len() && is_flag(#[trigger] args_of(cmd)[i]) && args_of(cmd)[i]
            != "-v"@ && args_of(cmd)[i] != "--verbose"@
}

/// The outcome of one folder: the line printed, and the created absolute
/// path if the creation succeeded.
pub open spec fn mkdir_step(
    ready: bool,
    paths: Set<Seq<char>>,
    cwd: Seq<char>,
    f: Seq<char>,
) -> (Seq<char>, Option<Seq<char>>) {
    if !is_folder_path_spec(f) {
        ("mkdir: cannot create directory '"@ + f + "': "@ + "Not valid folder path"@, Option::None)
    } else if ready && paths.contains(f) {
        ("mkdir: cannot create directory '"@ + f + "': "@ + "File exists"@, Option::None)
    } else {
        let full = full_path_spec(cwd, f);
        match create_err_on(ready, paths, full) {
            Option::None => ("mkdir: created directory '"@ + full + "'"@, Option::Some(full)),
            Option::Some(e) => (
                "mkdir: cannot create directory '"@ + f + "': "@ + e.message_spec(),
                Option::None,
            ),
        }
    }
}

/// The simulated run over a folder list: text printed, final path set, and
/// the created paths in order.
pub open spec fn mkdir_sim(
    ready: bool,
    paths: Set<Seq<char>>,
    cwd: Seq<char>,
    folders: Seq<Seq<char>>,
) -> (Seq<char>, Set<Seq<char>>, Seq<Seq<char>>)
    decreases folders.len(),
{
    if folders.len() == 0 {
        (Seq::<char>::empty(), paths, Seq::<Seq<char>>::empty())
    } else {
        let step = mkdir_step(ready, paths, cwd, folders[0]);
        let paths2 = (match step.1 {
            Option::Some(p) => paths.insert(p),
            Option::None => paths,
        });
        let rest = mkdir_sim(ready, paths2, cwd, folders.skip(1));
        (
            step.0 + rest.0,
            rest.1,
            (match step.1 {
                Option::Some(p) => seq![p] + rest.2,
                Option::None => rest.2,
            }),
        )
    }
}

/// The created paths joined by line breaks.
pub open spec fn joined_lines(paths: Seq<Seq<char>>) -> Seq<char>
    decreases paths.len(),
{
    if paths.len() == 0 {
        Seq::<char>::empty()
    } else if paths.len() == 1 {
        paths[0]
    } else {
        joined_lines(paths.drop_last()) + "\n"@ + paths.last()
    }
}

/// How a run relates the index's entries: nothing is removed or rewritten,
/// and anything new is a freshly created folder stamped with the store's
/// clock, under a path that was free before.
pub open spec fn mkdir_entries_rel(pre: SimpleFS, post: SimpleFS) -> bool {
    &&& forall|x: FSEntryV| #[trigger] pre.entries().contains(x) ==> post.entries().contains(x)
    &&& forall|x: FSEntryV|
        #[trigger] post.entries().contains(x) ==> pre.entries().contains(x) || (!pre.path_set()
            .contains(x.abs_path) && created_folder_entry(x, x.abs_path)
            && x.entry.metadata().created_at == pre.clock_spec())
}

/// The text `mkdir` returns once its work is done.
pub open spec fn mkdir_result_spec(created: Seq<Seq<char>>, verbose: bool) -> Seq<char> {
    if created.len() == 0 {
        Seq::<char>::empty()
    } else if verbose {
        "Created "@ + dec_str(created.len()) + " directories"@
    } else {
        joined_lines(created)
    }
}

impl MkDirCommand {
    /// Creates every named folder in order, printing one line per outcome;
    /// returns the created paths (or a count, when verbose).
    pub fn execute(k: &mut Kernel, shell: &Shell, cmd: &str) -> (r: String)
        requires
            old(k).wf(),
        ensures
            final(k).wf(),
            mkdir_entries_rel(old(k).fs_state(), final(k).fs_state()),
            mkdir_has_bad_flag(cmd@) ==> *final(k) == *old(k) && r@ == "mkdir: invalid option"@,
            !mkdir_has_bad_flag(cmd@) && mkdir_folders(cmd@).len() == 0 ==> *final(k) == *old(k)
                && r@ == "mkdir: missing operand"@,
            !mkdir_has_bad_flag(cmd@) && mkdir_folders(cmd@).len() > 0 ==> {
                let sim = mkdir_sim(
                    old(k).fs_state().is_ready(),
                    old(k).fs_state().path_set(),
                    shell@.folder,
                    mkdir_folders(cmd@),
                );
                &&& final(k).console_text() == old(k).console_text() + sim.0
                &&& final(k).fs_state().path_set() == sim.1
                &&& final(k).fs_state().is_ready() == old(k).fs_state().is_ready()
                &&& r@ == mkdir_result_spec(sim.2, mkdir_verbose(cmd@))
                &&& final(k).procs() == old(k).procs()
                &&& final(k).last_pid() == old(k).last_pid()
                &&& final(k).assigned() == old(k).assigned()
                &&& final(k).kill_flag() == old(k).kill_flag()
                &&& final(k).ticks() == old(k).ticks()
                &&& final(k).msgs() == old(k).msgs()
                &&& final(k).time_spec() == old(k).time_spec()
                &&& final(k).timestamp_view() == old(k).timestamp_view()
                &&& final(k).stepping_at() == old(k).stepping_at()
                &&& final(k).stepped() == old(k).stepped()
                &&& final(k).delivered() == old(k).delivered()
                &&& final(k).died() == old(k).died()
            },
    {
        let toks = split_ws(cmd);
        proof {
            assert(toks@.map_values(|t: String| t@).len() == toks@.len());
        }
        // Gather operands and options.
        let mut folders: Vec<String> = Vec::new();
        let mut verbose = false;
        let mut i: usize = 1;
        while i < toks.len()
            invariant
                *k == *old(k),
                old(k).wf(),
                1 <= i,
                i <= toks@.len() || toks@.len() == 0,
                toks@.map_values(|t: String| t@) == split_ws_spec(cmd@),
                folders@.map_values(|t: String| t@) =~= (if toks@.len() == 0 {
                    args_of(cmd@)
                } else {
                    args_of(cmd@).take(i - 1)
                }).filter(|t: Seq<char>| !is_flag(t)),
                forall|j: int|
                    0 <= j < i - 1 && j < args_of(cmd@).len() && is_flag(
                        #[trigger] args_of(cmd@)[j],
                    ) ==> (args_of(cmd@)[j] == "-v"@ || args_of(cmd@)[j] == "--verbose"@),
                verbose == exists|j: int|
                    0 <= j < i - 1 && j < args_of(cmd@).len() && is_flag(
                        #[trigger] args_of(cmd@)[j],
                    ) && (args_of(cmd@)[j] == "-v"@ || args_of(cmd@)[j] == "--verbose"@),
            decreases toks@.len() - i,
        {
            proof {
                assert(args_of(cmd@)[i - 1] == toks@.map_values(|t: String| t@)[i as int]);
                let t1 = args_of(cmd@).take(i as int);
                assert(t1.drop_last() =~= args_of(cmd@).take(i - 1));
                assert(t1.last() == args_of(cmd@)[i - 1]);
                reveal(Seq::filter);
            }
            let is_opt = toks[i].as_str().unicode_len() > 0 && {
                let c = vstd::string::StrSliceExecFns::get_char(toks[i].as_str(), 0);
                c == '-'
            };
            if is_opt {
                if str_eq(toks[i].as_str(), "-v") || str_eq(toks[i].as_str(), "--verbose") {
                    verbose = true;
                } else {
                    proof {
                        assert(mkdir_has_bad_flag(cmd@));
                    }
                    return "mkdir: invalid option".to_owned();
                }
            } else {
                folders.push(toks[i].clone());
            }
            i = i + 1;
        }
        proof {
            if toks@.len() > 0 {
                assert(args_of(cmd@).take(i - 1) =~= args_of(cmd@));
            }
            if mkdir_has_bad_flag(cmd@) {
                let j = choose|j: int|
                    0 <= j < args_of(cmd@).len() && is_flag(#[trigger] args_of(cmd@)[j]) && args_of(
                        cmd@,
                    )[j] != "-v"@ && args_of(cmd@)[j] != "--verbose"@;
                assert(false);
            }
            assert(verbose == mkdir_verbose(cmd@));
            assert(folders@.map_values(|t: String| t@) == mkdir_folders(cmd@));
        }
        if folders.len() == 0 {
            proof {
                assert(mkdir_folders(cmd@).len() == 0);
            }
            return "mkdir: missing operand".to_owned();
        }
        let ghost k0 = *k;
        let ghost fvs = folders@.map_values(|t: String| t@);
        let ghost ready = k.fs_state().is_ready();
        let ghost cwd = shell@.folder;
        let mut created: Vec<String> = Vec::new();
        let mut fi: usize = 0;
        proof {
            assert(fvs.skip(0) =~= fvs);
            assert(k.console_text().skip(k0.console_text().len() as int)
                =~= Seq::<char>::empty());
            assert(Seq::<char>::empty() + mkdir_sim(ready, k.fs_state().path_set(), cwd, fvs).0
                =~= mkdir_sim(ready, k.fs_state().path_set(), cwd, fvs).0);
            assert(created@.map_values(|t: String| t@) =~= Seq::<Seq<char>>::empty());
            assert(Seq::<Seq<char>>::empty() + mkdir_sim(
                ready,
                k.fs_state().path_set(),
                cwd,
                fvs,
            ).2 =~= mkdir_sim(ready, k.fs_state().path_set(), cwd, fvs).2);
        }
        while fi < folders.len()
            invariant
                fi <= folders@.len(),
                fvs == folders@.map_values(|t: String| t@),
                fvs.len() == folders@.len(),
                k.wf(),
                ready == k0.fs_state().is_ready(),
                cwd == shell@.folder,
                k.fs_state().is_ready() == ready,
                k.fs_state().clock_spec() == k0.fs_state().clock_spec(),
                mkdir_entries_rel(k0.fs_state(), k.fs_state()),
                mkdir_sim(ready, k0.fs_state().path_set(), cwd, fvs).0 == k.console_text().skip(
                    k0.console_text().len() as int,
                ) + mkdir_sim(ready, k.fs_state().path_set(), cwd, fvs.skip(fi as int)).0,
                mkdir_sim(ready, k0.fs_state().path_set(), cwd, fvs).1 == mkdir_sim(
                    ready,
                    k.fs_state().path_set(),
                    cwd,
                    fvs.skip(fi as int),
                ).1,
                mkdir_sim(ready, k0.fs_state().path_set(), cwd, fvs).2 == created@.map_values(
                    |t: String| t@,
                ) + mkdir_sim(ready, k.fs_state().path_set(), cwd, fvs.skip(fi as int)).2,
                k0.console_text().is_prefix_of(k.console_text()),
                k.procs() == k0.procs(),
                k.last_pid() == k0.last_pid(),
                k.assigned() == k0.assigned(),
                k.kill_flag() == k0.kill_flag(),
                k.ticks() == k0.ticks(),
                k.msgs() == k0.msgs(),
                k.time_spec() == k0.time_spec(),
                k.timestamp_view() == k0.timestamp_view(),
                k.stepping_at() == k0.stepping_at(),
                k.stepped() == k0.stepped(),
                k.delivered() == k0.delivered(),
                k.died() == k0.died(),
            decreases folders@.len() - fi,
        {
            let ghost pre_iter = *k;
            let ghost pre_created = created@;
            let folder = &folders[fi];
            proof {
                assert(fvs[fi as int] == folder@);
                assert(fvs.skip(fi as int)[0] == folder@);
                assert(fvs.skip(fi as int).skip(1) =~= fvs.skip(fi + 1));
                k.fs_state().lemma_path_set(folder@);
            }
            if !SimpleFS::is_folder_path(folder.as_str()) {
                let mut line = String::from_str("mkdir: cannot create directory '");
                line.append(folder.as_str());
                line.append("': ");
                line.append("Not valid folder path");
                k.print(line.as_str());
            } else {
                let already = match k.fs.path_exists(folder.as_str()) {
                    Result::Ok(b) => b,
                    Result::Err(_) => false,
                };
                if already {
                    let mut line = String::from_str("mkdir: cannot create directory '");
                    line.append(folder.as_str());
                    line.append("': ");
                    line.append("File exists");
                    k.print(line.as_str());
                } else {
                    let ghost pre_fs = k.fs_state();
                    let result = if !SimpleFS::is_absolute_path(folder.as_str()) {
                        let cf = shell.folder_text();
                        k.fs.create_folder_relative(cf.as_str(), folder.as_str())
                    } else {
                        k.fs.create_folder(folder.as_str())
                    };
                    proof {
                        if is_folder_path_spec(folder@) && is_absolute_path_spec(folder@) {
                            assert(full_path_spec("/"@, folder@) == full_path_spec(
                                cwd,
                                folder@,
                            ));
                        }
                    }
                    match result {
                        Result::Ok(entry) => {
                            proof {
                                let kk = choose|kk: int|
                                    0 <= kk <= pre_fs.entries().len() && k.fs_state().entries()
                                        == pre_fs.entries().insert(kk, entry@);
                                SimpleFS::lemma_path_set_after_insert(
                                    pre_fs,
                                    k.fs_state(),
                                    kk,
                                    entry@,
                                );
                                assert forall|x: FSEntryV|
                                    k0.fs_state().entries().contains(x) implies k.fs_state()
                                    .entries().contains(x) by {
                                    assert(pre_fs.entries().contains(x));
                                    lemma_insert_contains(pre_fs.entries(), kk, entry@, x);
                                }
                                assert forall|x: FSEntryV|
                                    k.fs_state().entries().contains(x) implies k0.fs_state()
                                    .entries().contains(x) || (!k0.fs_state().path_set().contains(
                                    x.abs_path,
                                ) && created_folder_entry(x, x.abs_path)
                                    && x.entry.metadata().created_at == k0.fs_state()
                                    .clock_spec()) by {
                                    lemma_insert_contains(pre_fs.entries(), kk, entry@, x);
                                    if !pre_fs.entries().contains(x) {
                                        assert(x == entry@);
                                        assert(!pre_fs.path_set().contains(x.abs_path));
                                        assert(!k0.fs_state().path_set().contains(
                                            x.abs_path,
                                        )) by {
                                            if k0.fs_state().path_set().contains(x.abs_path) {
                                                let i2 = choose|i2: int|
                                                    0 <= i2 < k0.fs_state().paths().len()
                                                        && #[trigger] k0.fs_state().paths()[i2]
                                                        == x.abs_path;
                                                let y = k0.fs_state().entries()[i2];
                                                assert(k0.fs_state().entries().contains(y));
                                                assert(pre_fs.entries().contains(y));
                                                let j2 = choose|j2: int|
                                                    0 <= j2 < pre_fs.entries().len()
                                                        && #[trigger] pre_fs.entries()[j2] == y;
                                                assert(pre_fs.paths()[j2] == x.abs_path);
                                                assert(pre_fs.paths().contains(x.abs_path));
                                            }
                                        }
                                    }
                                }
                            }
                            let path = entry.path();
                            let mut line = String::from_str("mkdir: created directory '");
                            line.append(path.as_str());
                            line.append("'");
                            k.print(line.as_str());
                            created.push(path);
                        },
                        Result::Err(e) => {
                            let mut line = String::from_str("mkdir: cannot create directory '");
                            line.append(folder.as_str());
                            line.append("': ");
                            let m = e.message();
                            line.append(m.as_str());
                            k.print(line.as_str());
                        },
                    }
                }
            }
            proof {
                let step = mkdir_step(ready, pre_iter.fs_state().path_set(), cwd, folder@);
                assert(k.console_text() =~= pre_iter.console_text() + step.0);
                assert(k.console_text().skip(k0.console_text().len() as int) =~= pre_iter
                    .console_text().skip(k0.console_text().len() as int) + step.0);
                match step.1 {
                    Option::Some(p) => {
                        assert(created@.map_values(|t: String| t@) =~= pre_created.map_values(
                            |t: String| t@,
                        ).push(p));
                        assert(pre_created.map_values(|t: String| t@).push(p) + mkdir_sim(
                            ready,
                            k.fs_state().path_set(),
                            cwd,
                            fvs.skip(fi + 1),
                        ).2 =~= pre_created.map_values(|t: String| t@) + (seq![p] + mkdir_sim(
                            ready,
                            k.fs_state().path_set(),
                            cwd,
                            fvs.skip(fi + 1),
                        ).2));
                    },
                    Option::None => {
                        assert(k.fs_state().path_set() == pre_iter.fs_state().path_set());
                    },
                }
                assert(pre_iter.console_text().skip(k0.console_text().len() as int) + (step.0
                    + mkdir_sim(ready, k.fs_state().path_set(), cwd, fvs.skip(fi + 1)).0)
                    =~= (pre_iter.console_text().skip(k0.console_text().len() as int) + step.0)
                    + mkdir_sim(ready, k.fs_state().path_set(), cwd, fvs.skip(fi + 1)).0);
            }
            fi = fi + 1;
        }
        proof {
            assert(fvs.skip(folders@.len() as int).len() == 0);
            assert(k.console_text() =~= k0.console_text() + k.console_text().skip(
                k0.console_text().len() as int,
            ));
            assert(created@.map_values(|t: String| t@) + Seq::<Seq<char>>::empty()
                =~= created@.map_values(|t: String| t@));
        }
        // Render the result.
        if created.len() == 0 {
            return String::new();
        }
        if verbose {
            let mut r = String::from_str("Created ");
            let c = u64_to_string(created.len() as u64);
            r.append(c.as_str());
            r.append(" directories");
            return r;
        }
        let mut r = String::new();
        let ghost cvs = created@.map_values(|t: String| t@);
        let ghost k_done = *k;
        let mut ci: usize = 0;
        while ci < created.len()
            invariant
                *k == k_done,
                ci <= created@.len(),
                cvs == created@.map_values(|t: String| t@),
                r@ =~= joined_lines(cvs.take(ci as int)),
            decreases created@.len() - ci,
        {
            if ci > 0 {
                r.append("\n");
            }
            r.append(created[ci].as_str());
            proof {
                let t1 = cvs.take(ci + 1);
                assert(t1.drop_last() =~= cvs.take(ci as int));
                assert(t1.last() == cvs[ci as int]);
                assert(r@ =~= joined_lines(cvs.take(ci + 1)));
            }
            ci = ci + 1;
        }
        proof {
            assert(cvs.take(created@.len() as int) =~= cvs);
        }
        r
    }
}

} // verus!
