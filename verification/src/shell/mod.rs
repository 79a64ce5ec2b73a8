//! The shell: a process that scrapes the console for completed prompt lines,
//! parses them against the prompt grammar, and dispatches built-in and
//! filesystem commands.

pub mod command;

use vstd::prelude::*;
use vstd::string::StrSliceExecFns;
use vstd::string::StringExecFns;
use crate::demo::DemoProcess;
use crate::demo::DemoV;
use crate::demo::DEMO_LIFE;
use crate::kernel::frame_all_but_console;
use crate::kernel::Kernel;
use crate::kernel::MessageV;
use crate::kernel::Message;
use crate::process::ProcessBody;
use crate::process::ProcessRecord;
use crate::shell::command::cd::cd_changes_dir;
use crate::shell::command::cd::cd_output_spec;
use crate::shell::command::cd::CdCommand;
use crate::shell::command::exists_cmd::exists_output_spec;
use crate::shell::command::exists_cmd::ExistsCommand;
use crate::shell::command::ls::ls_all_flag;
use crate::shell::command::ls::ls_bad_arg;
use crate::shell::command::ls::ls_entries_spec;
use crate::shell::command::ls::ls_header_spec;
use crate::shell::command::ls::ls_rows_spec;
use crate::shell::command::ls::LsCommand;
use crate::shell::command::mkdir::mkdir_folders;
use crate::shell::command::mkdir::mkdir_has_bad_flag;
use crate::shell::command::mkdir::mkdir_result_spec;
use crate::shell::command::mkdir::mkdir_sim;
use crate::shell::command::mkdir::mkdir_entries_rel;
use crate::shell::command::mkdir::mkdir_verbose;
use crate::shell::command::mkdir::MkDirCommand;
use crate::shell::command::time::time_output_spec;
use crate::shell::command::time::TimeCommand;
use crate::shell::command::top::top_output_spec;
use crate::shell::command::top::TopCommand;
use crate::text::args_of;
use crate::text::chars_vec;
use crate::text::string_of_chars;
use crate::text::is_prefix;
use crate::text::is_space;
use crate::text::is_space_char;
use crate::text::starts_with_str;
use crate::text::str_eq;
use crate::text::trim;
use crate::text::trim_spec;

verus! {

/// Mathematical image of [`Shell`].
pub struct ShellV {
    pub pid: usize,
    pub buffer: Seq<char>,
    pub waiting_for_input: bool,
    pub folder: Seq<char>,
}

/// The shell process: prompt state, an input buffer, and the current working
/// directory.
pub struct Shell {
    pub(crate) pid: usize,
    pub(crate) buffer: String,
    pub(crate) waiting_for_input: bool,
    pub(crate) folder: String,
}

impl View for Shell {
    type V = ShellV;

    closed spec fn view(&self) -> ShellV {
        ShellV {
            pid: self.pid,
            buffer: self.buffer@,
            waiting_for_input: self.waiting_for_input,
            folder: self.folder@,
        }
    }
}

/// The prompt the shell prints for a working directory.
pub open spec fn prompt_spec(folder: Seq<char>) -> Seq<char> {
    "user@r-os:"@ + folder + "$ "@
}

impl Shell {
    /// A fresh shell: waiting for input, at the filesystem root.
    pub fn new() -> (r: Self)
        ensures
            r@ == (ShellV {
                pid: 0,
                buffer: Seq::<char>::empty(),
                waiting_for_input: true,
                folder: "/"@,
            }),
    {
        Shell {
            pid: 0,
            buffer: String::new(),
            waiting_for_input: true,
            folder: "/".to_owned(),
        }
    }

    pub fn pid(&self) -> (r: usize)
        ensures
            r == self@.pid,
    {
        self.pid
    }

    pub fn set_pid(&mut self, pid: usize)
        ensures
            final(self)@ == (ShellV { pid: pid, ..old(self)@ }),
    {
        self.pid = pid;
    }

    /// The shell's current working directory.
    pub fn folder_text(&self) -> (r: String)
        ensures
            r@ == self@.folder,
    {
        self.folder.clone()
    }

    /// The prompt for the shell's current working directory.
    pub fn shell_prompt(&self) -> (r: String)
        ensures
            r@ == prompt_spec(self@.folder),
    {
        let mut r = String::from_str("user@r-os:");
        r.append(self.folder.as_str());
        r.append("$ ");
        r
    }
}

impl Shell {
    /// Handles one delivered message: `SetWaitingForInput` moves the prompt
    /// state, `Print` appends to the console, `Kill` is ignored.
    pub fn on_message(&mut self, k: &mut Kernel, msg: Message)
        ensures
            (match msg@ {
                MessageV::SetWaitingForInput(b) => final(self)@ == (ShellV {
                    waiting_for_input: b,
                    ..old(self)@
                }) && *final(k) == *old(k),
                MessageV::Print(s) => *final(self) == *old(self) && final(k).console_text() == old(
                    k,
                ).console_text() + s && frame_all_but_console(*old(k), *final(k)),
                MessageV::Kill => *final(self) == *old(self) && *final(k) == *old(k),
            }),
            old(k).wf() ==> final(k).wf(),
    {
        match msg {
            Message::SetWaitingForInput(wait) => {
                self.waiting_for_input = wait;
            },
            Message::Print(s) => {
                k.print(s.as_str());
            },
            Message::Kill => {},
        }
    }

    /// Dispatches one recognized command line; an unrecognized one is
    /// reported and changes nothing else.
    #[verifier::rlimit(80)]
    pub fn execute_command(&mut self, cmd: &str, k: &mut Kernel)
        requires
            old(k).wf(),
            old(k).last_pid() < usize::MAX,
        ensures
            final(k).wf(),
            execute_command_rel(*old(self), *final(self), *old(k), *final(k), cmd@),
    {
        let ghost k0 = *k;
        if str_eq(cmd, "help") {
            k.print("\nCommands: help, clear, ls, echo <text>, spawn_demo\n");
        } else if str_eq(cmd, "clear") {
            k.clear();
        } else if starts_with_str(cmd, "ls") {
            let result = LsCommand::execute(k, cmd);
            let mut out = String::from_str("\n");
            out.append(result.as_str());
            out.append("\n");
            k.print(out.as_str());
            proof {
                assert(k.console_text() =~= k0.console_text() + shell_ls_text(
                    k0.fs_state(),
                    cmd@,
                ));
            }
        } else if starts_with_str(cmd, "exists") {
            let result = ExistsCommand::execute(k, cmd);
            let mut out = String::from_str("\n");
            out.append(result.as_str());
            out.append("\n");
            k.print(out.as_str());
            proof {
                assert(k.console_text() =~= k0.console_text() + "\n"@ + exists_output_spec(
                    k0.fs_state(),
                    cmd@,
                ) + "\n"@);
            }
        } else if starts_with_str(cmd, "echo ") {
            let payload = echo_text(cmd);
            let mut out = String::from_str("\n");
            out.append(payload.as_str());
            out.append("\n");
            k.print(out.as_str());
            proof {
                assert(k.console_text() =~= k0.console_text() + "\n"@ + echo_payload(cmd@)
                    + "\n"@);
            }
        } else if starts_with_str(cmd, "cd") {
            let result = CdCommand::execute_data(k, cmd, &mut self.folder);
            let mut out = String::from_str("\n");
            out.append(result.as_str());
            out.append("\n");
            k.print(out.as_str());
            proof {
                assert(k.console_text() =~= k0.console_text() + "\n"@ + cd_output_spec(
                    k0.fs_state(),
                    cmd@,
                ) + "\n"@);
            }
        } else if str_eq(cmd, "demo") {
            k.print("\nSpawning demo process...\n");
            let shell_pid = self.pid;
            let ghost mid = *k;
            let p_demo = DemoProcess::new(shell_pid);
            let ghost p = ProcessBody::Demo(p_demo);
            k.spawn(ProcessBody::Demo(p_demo));
            proof {
                let b = choose|b: ProcessBody|
                    #![trigger mid.procs().push((ProcessRecord { pid: ((mid.last_pid() + 1) as usize), body: b }))]
                    crate::process::same_but_pid(p, b, ((mid.last_pid() + 1) as usize)) && k.procs()
                        == mid.procs().push(
                        (ProcessRecord { pid: ((mid.last_pid() + 1) as usize), body: b }),
                    );
                assert(b is Demo && b->Demo_0@ == (DemoV {
                    pid: ((k0.last_pid() + 1) as usize),
                    counter: 0,
                    life: DEMO_LIFE,
                    shell_pid: self@.pid,
                }) && k.procs() == k0.procs().push(
                    (ProcessRecord { pid: ((k0.last_pid() + 1) as usize), body: b }),
                ));
            }
        } else if starts_with_str(cmd, "mkdir") {
            let result = MkDirCommand::execute(k, self, cmd);
            let mut out = String::from_str("\n");
            out.append(result.as_str());
            out.append("\n");
            k.print(out.as_str());
            proof {
                assert(k.console_text() =~= k0.console_text() + shell_mkdir_text(
                    k0.fs_state(),
                    self@.folder,
                    cmd@,
                ));
            }
        } else if starts_with_str(cmd, "time") {
            let result = TimeCommand::execute(k, cmd);
            let mut out = String::from_str("\n");
            out.append(result.as_str());
            out.append("\n");
            k.print(out.as_str());
            proof {
                assert(k.console_text() =~= k0.console_text() + shell_time_text(
                    k0.timestamp_view(),
                    k0.time_spec(),
                    cmd@,
                ));
            }
        } else if starts_with_str(cmd, "top") {
            let result = TopCommand::execute(k, cmd);
            let mut out = String::from_str("\n");
            out.append(result.as_str());
            out.append("\n");
            k.print(out.as_str());
            proof {
                assert(k.console_text() =~= k0.console_text() + shell_top_text(
                    k0.procs(),
                    cmd@,
                ));
            }
        } else {
            let mut out = String::from_str("\nUnknown: ");
            out.append(cmd);
            out.append("\n");
            k.print(out.as_str());
            proof {
                assert(k.console_text() =~= k0.console_text() + "\nUnknown: "@ + cmd@ + "\n"@);
            }
        }
    }
}

impl Shell {
    /// Prints the welcome banner.
    pub fn print_welcome(&mut self, kernel: &mut Kernel)
        ensures
            *final(self) == *old(self),
            final(kernel).console_text() == old(kernel).console_text() + welcome_spec(),
            frame_all_but_console(*old(kernel), *final(kernel)),
            old(kernel).wf() ==> final(kernel).wf(),
    {
        kernel.print(
            "\n==================================================\n                Welcome to R-OS\n==================================================\n\nVersion: 0.1.0\nKernel : Custom Rust/WebAssembly Kernel\nType   : Experimental Browser OS\n\nType 'help' to see available commands.\nEnjoy your stay!\n\n",
        );
    }

    /// One step of the shell.
    pub fn tick(&mut self, k: &mut Kernel)
        requires
            old(k).wf(),
            old(k).last_pid() < usize::MAX,
        ensures
            final(k).wf(),
            shell_tick_rel(*old(self), *final(self), *old(k), *final(k)),
            final(self)@.pid == old(self)@.pid,
            final(k).msgs() == old(k).msgs(),
            final(k).last_pid() == old(k).last_pid() || final(k).last_pid() == old(k).last_pid()
                + 1,
            final(k).assigned() == old(k).assigned() || final(k).assigned() == old(
                k,
            ).assigned().push(((old(k).last_pid() + 1) as usize)),
            final(k).stepped() == old(k).stepped(),
            final(k).delivered() == old(k).delivered(),
            final(k).died() == old(k).died(),
            final(k).ticks() == old(k).ticks(),
            final(k).stepping_at() == old(k).stepping_at(),
            final(k).kill_flag() == old(k).kill_flag(),
            final(k).time_spec() == old(k).time_spec(),
            final(k).timestamp_view() == old(k).timestamp_view(),
            forall|p: usize|
                final(k).contains_pid(p) ==> #[trigger] old(k).contains_pid(p) || p > old(
                    k,
                ).last_pid(),
    {
        let shell_prompt = self.shell_prompt();
        let ghost k0 = *k;
        let ghost s0 = *self;
        if k.tick_count == 1 && self.buffer.as_str().unicode_len() == 0 {
            self.print_welcome(k);
            k.print(shell_prompt.as_str());
        }
        let ghost ka = *k;
        proof {
            assert(ka.console_text() =~= console_after_welcome(s0, k0));
            assert forall|p: usize| ka.contains_pid(p) implies k0.contains_pid(p) by {}
        }
        if !self.waiting_for_input {
            return;
        }
        let text = k.console.clone();
        proof {
            assert(text@ == ka.console_text());
        }
        let (line, ends) = last_line(text.as_str());
        if !ends {
            return;
        }
        let cs = chars_vec(line.as_str());
        let m = parse_prompt_line(&cs);
        if cs.len() == 0 {
            k.print(shell_prompt.as_str());
            return;
        }
        match m {
            Option::Some(start) => {
                let n = cs.len();
                let mut cmdv: Vec<char> = Vec::new();
                let mut q = start;
                proof {
                    assert(0 <= start < n);
                }
                while q < n
                    invariant
                        start <= q <= n,
                        n == cs@.len(),
                        cmdv@ =~= cs@.subrange(start as int, q as int),
                    decreases n - q,
                {
                    cmdv.push(cs[q]);
                    q = q + 1;
                }
                proof {
                    assert(cmdv@ =~= cs@.skip(start as int));
                    assert(cmdv@ == prompt_command(line@));
                }
                let command = string_of_chars(&cmdv);
                if command.as_str().unicode_len() > 0 {
                    self.execute_command(command.as_str(), k);
                    let ghost kb = *k;
                    k.print("\n");
                    k.print(shell_prompt.as_str());
                    proof {
                        assert(k.console_text() =~= kb.console_text() + "\n"@ + prompt_spec(
                            s0@.folder,
                        ));
                        assert(execute_command_rel(s0, *self, ka, kb, prompt_command(line@)));
                        assert(shell_tick_rel(s0, *self, k0, *k));
                        assert forall|p: usize|
                            k.contains_pid(p) implies k0.contains_pid(p) || p > k0.last_pid() by {
                            if !k0.contains_pid(p) {
                                assert(!ka.contains_pid(p));
                            }
                        }
                    }
                } else {
                    k.print("\n");
                    k.print(shell_prompt.as_str());
                    proof {
                        assert(k.console_text() =~= ka.console_text() + "\n"@ + prompt_spec(
                            s0@.folder,
                        ));
                    }
                }
            },
            Option::None => {},
        }
    }
}

/// Strips every leading `"echo "` and trims the rest.
fn echo_text(cmd: &str) -> (r: String)
    ensures
        r@ == echo_payload(cmd@),
{
    let mut cur: String = cmd.to_owned();
    loop
        invariant_except_break
            strip_echo(cmd@) == strip_echo(cur@),
        ensures
            strip_echo(cmd@) == strip_echo(cur@),
            !(is_prefix("echo "@, cur@) && cur@.len() >= 5),
        decreases cur@.len(),
    {
        proof {
            reveal_strlit("echo ");
        }
        if !starts_with_str(cur.as_str(), "echo ") {
            break;
        }
        let n = cur.as_str().unicode_len();
        let rest = cur.as_str().substring_char(5, n).to_owned();
        proof {
            assert(rest@ =~= cur@.skip(5));
        }
        cur = rest;
    }
    proof {
        assert(strip_echo(cur@) == cur@);
    }
    trim(cur.as_str())
}

/// Word characters of the prompt grammar: ASCII letters, digits, underscore
/// and hyphen.
pub open spec fn is_word_char(c: char) -> bool {
    ('a' <= c && c <= 'z') || ('A' <= c && c <= 'Z') || ('0' <= c && c <= '9') || c == '_' || c
        == '-'
}

/// End of the run of word characters starting at `i`.
pub open spec fn word_end(s: Seq<char>, i: int) -> int
    decreases s.len() - i,
    when 0 <= i <= s.len()
{
    if i == s.len() || !is_word_char(s[i]) {
        i
    } else {
        word_end(s, i + 1)
    }
}

/// The largest index in `[lo, d]` holding a dollar sign, or -1 if none.
pub open spec fn last_dollar_at_most(s: Seq<char>, lo: int, d: int) -> int
    decreases d - lo + 1,
    when 0 <= lo && d < s.len()
{
    if d < lo {
        -1
    } else if s[d] == '$' {
        d
    } else {
        last_dollar_at_most(s, lo, d - 1)
    }
}

/// Where the command text of a prompt line starts, or -1 when the line does
/// not match the prompt grammar.
///
/// The grammar is `word+ '@' word+ ':' rest '$' space? command`, anchored at
/// both ends, with `rest` and `command` non-empty and the dollar sign chosen
/// greedily: the last one that leaves a non-empty command.
pub open spec fn prompt_cmd_start(s: Seq<char>) -> int {
    let a = word_end(s, 0);
    if a == 0 || a >= s.len() || s[a] != '@' {
        -1
    } else {
        let b = word_end(s, a + 1);
        if b == a + 1 || b >= s.len() || s[b] != ':' {
            -1
        } else {
            let d = last_dollar_at_most(s, b + 2, s.len() - 2);
            if d < 0 {
                -1
            } else if is_space_char(s[d + 1]) && d + 2 < s.len() {
                d + 2
            } else {
                d + 1
            }
        }
    }
}

/// Whether the line matches the prompt grammar.
pub open spec fn prompt_matches(s: Seq<char>) -> bool {
    prompt_cmd_start(s) >= 0
}

/// The command text of a matching prompt line.
pub open spec fn prompt_command(s: Seq<char>) -> Seq<char> {
    s.skip(prompt_cmd_start(s))
}

/// Word test on a character.
fn is_word(c: char) -> (r: bool)
    ensures
        r == is_word_char(c),
{
    ('a' <= c && c <= 'z') || ('A' <= c && c <= 'Z') || ('0' <= c && c <= '9') || c == '_' || c
        == '-'
}

/// Parses a line against the prompt grammar; returns where the command text
/// starts.
pub fn parse_prompt_line(cs: &Vec<char>) -> (r: Option<usize>)
    ensures
        (match r {
            Option::Some(i) => prompt_cmd_start(cs@) == i as int && i < cs@.len(),
            Option::None => prompt_cmd_start(cs@) == -1,
        }),
{
    let n = cs.len();
    let mut a: usize = 0;
    while a < n && is_word(cs[a])
        invariant
            a <= n,
            n == cs@.len(),
            word_end(cs@, 0) == word_end(cs@, a as int),
            forall|j: int| 0 <= j < a ==> is_word_char(cs@[j]),
        decreases n - a,
    {
        a = a + 1;
    }
    proof {
        assert(word_end(cs@, 0) == a as int);
    }
    if a == 0 || a >= n || cs[a] != '@' {
        return Option::None;
    }
    let mut b: usize = a + 1;
    while b < n && is_word(cs[b])
        invariant
            a + 1 <= b <= n,
            n == cs@.len(),
            word_end(cs@, a + 1) == word_end(cs@, b as int),
        decreases n - b,
    {
        b = b + 1;
    }
    proof {
        assert(word_end(cs@, a + 1) == b as int);
    }
    if b == a + 1 || b >= n || cs[b] != ':' {
        return Option::None;
    }
    if n < 4 || b > n - 4 {
        // No room for a dollar sign with text on both sides.
        proof {
            if n >= 2 {
                lemma_no_dollar(cs@, b + 2, n - 2);
            }
        }
        return Option::None;
    }
    let mut d: usize = n - 2;
    loop
        invariant_except_break
            b + 2 <= d <= n - 2,
            n == cs@.len(),
            b + 2 < n,
            last_dollar_at_most(cs@, b + 2, n - 2) == last_dollar_at_most(cs@, b + 2, d as int),
        ensures
            n == cs@.len(),
            b + 2 <= d <= n - 2,
            (last_dollar_at_most(cs@, b + 2, n - 2) == d as int && cs@[d as int] == '$')
                || (last_dollar_at_most(cs@, b + 2, n - 2) == -1 && cs@[d as int] != '$' && d == b
                + 2),
        decreases d,
    {
        if cs[d] == '$' {
            break;
        }
        if d == b + 2 {
            proof {
                assert(last_dollar_at_most(cs@, b + 2, d as int) == last_dollar_at_most(
                    cs@,
                    b + 2,
                    d - 1,
                ));
                assert(last_dollar_at_most(cs@, b + 2, d - 1) == -1);
            }
            break;
        }
        d = d - 1;
    }
    if cs[d] != '$' {
        return Option::None;
    }
    if is_space(cs[d + 1]) && d + 2 < n {
        Option::Some(d + 2)
    } else {
        Option::Some(d + 1)
    }
}

/// An empty scan range holds no dollar sign.
proof fn lemma_no_dollar(s: Seq<char>, lo: int, d: int)
    requires
        0 <= lo,
        d < lo,
        d < s.len(),
    ensures
        last_dollar_at_most(s, lo, d) == -1,
{
}

/// The command line without its `echo` command words: every leading
/// `"echo "` is stripped, as repeated-prefix stripping does.
pub open spec fn strip_echo(s: Seq<char>) -> Seq<char>
    decreases s.len(),
{
    if is_prefix("echo "@, s) && s.len() >= 5 {
        strip_echo(s.skip(5))
    } else {
        s
    }
}

/// The text `echo` prints: the command line without its command words,
/// trimmed of surrounding whitespace.
pub open spec fn echo_payload(s: Seq<char>) -> Seq<char> {
    trim_spec(strip_echo(s))
}

/// The welcome banner printed on the first tick.
pub open spec fn welcome_spec() -> Seq<char> {
    "\n==================================================\n                Welcome to R-OS\n==================================================\n\nVersion: 0.1.0\nKernel : Custom Rust/WebAssembly Kernel\nType   : Experimental Browser OS\n\nType 'help' to see available commands.\nEnjoy your stay!\n\n"@
}

/// What the console gains when `ls` runs through the shell: the header the
/// command prints, then its result in a framed line.
pub open spec fn shell_ls_text(fs: crate::vfs::fs::SimpleFS, c: Seq<char>) -> Seq<char> {
    (if ls_bad_arg(c) is Some {
        Seq::<char>::empty()
    } else {
        ls_header_spec()
    }) + "\n"@ + (match ls_bad_arg(c) {
        Option::Some(_) => "ls: unexpected argument"@,
        Option::None => ls_rows_spec(ls_entries_spec(fs), ls_all_flag(c)),
    }) + "\n"@
}

/// What the console gains when `time` runs through the shell.
pub open spec fn shell_time_text(timestamp: Seq<char>, time: i64, c: Seq<char>) -> Seq<char> {
    if args_of(c).len() > 0 {
        "\n"@ + "time: too many arguments"@ + "\n"@
    } else {
        time_output_spec(timestamp, time) + "\n"@ + "\n"@
    }
}

/// What the console gains when `top` runs through the shell.
pub open spec fn shell_top_text(procs: Seq<ProcessRecord>, c: Seq<char>) -> Seq<char> {
    if args_of(c).len() > 0 {
        "\n"@ + "top: too many arguments"@ + "\n"@
    } else {
        top_output_spec(procs) + "\n"@ + "\n"@
    }
}

/// What the console gains when `mkdir` runs through the shell.
pub open spec fn shell_mkdir_text(
    fs: crate::vfs::fs::SimpleFS,
    folder: Seq<char>,
    c: Seq<char>,
) -> Seq<char> {
    if mkdir_has_bad_flag(c) {
        "\n"@ + "mkdir: invalid option"@ + "\n"@
    } else if mkdir_folders(c).len() == 0 {
        "\n"@ + "mkdir: missing operand"@ + "\n"@
    } else {
        let sim = mkdir_sim(fs.is_ready(), fs.path_set(), folder, mkdir_folders(c));
        sim.0 + ("\n"@ + mkdir_result_spec(sim.2, mkdir_verbose(c)) + "\n"@)
    }
}

/// How one dispatched command line relates the shell and kernel states
/// before and after it: one case per command of the surface, first match
/// wins, unknown lines are reported and change nothing else.
pub open spec fn execute_command_rel(
    s0: Shell,
    s1: Shell,
    k0: Kernel,
    k1: Kernel,
    c: Seq<char>,
) -> bool {
    let keep_shell = s1@ == s0@;
    let keep_sched = k1.procs() == k0.procs() && k1.last_pid() == k0.last_pid() && k1.assigned()
        == k0.assigned() && k1.kill_flag() == k0.kill_flag() && k1.died() == k0.died();
    let keep_rest = k1.fs_state() == k0.fs_state() && k1.ticks() == k0.ticks() && k1.msgs()
        == k0.msgs() && k1.time_spec() == k0.time_spec() && k1.timestamp_view()
        == k0.timestamp_view() && k1.stepping_at() == k0.stepping_at() && k1.stepped()
        == k0.stepped() && k1.delivered() == k0.delivered();
    if c == "help"@ {
        keep_shell && keep_sched && keep_rest && k1.console_text() == k0.console_text()
            + "\nCommands: help, clear, ls, echo <text>, spawn_demo\n"@
    } else if c == "clear"@ {
        keep_shell && keep_sched && keep_rest && k1.console_text() == Seq::<char>::empty()
    } else if is_prefix("ls"@, c) {
        keep_shell && keep_sched && keep_rest && k1.console_text() == k0.console_text()
            + shell_ls_text(k0.fs_state(), c)
    } else if is_prefix("exists"@, c) {
        keep_shell && keep_sched && keep_rest && k1.console_text() == k0.console_text() + "\n"@
            + exists_output_spec(k0.fs_state(), c) + "\n"@
    } else if is_prefix("echo "@, c) {
        keep_shell && keep_sched && keep_rest && k1.console_text() == k0.console_text() + "\n"@
            + echo_payload(c) + "\n"@
    } else if is_prefix("cd"@, c) {
        &&& s1@ == (ShellV {
            folder: (if cd_changes_dir(k0.fs_state(), c) {
                args_of(c)[0]
            } else {
                s0@.folder
            }),
            ..s0@
        })
        &&& keep_sched
        &&& keep_rest
        &&& k1.console_text() == k0.console_text() + "\n"@ + cd_output_spec(k0.fs_state(), c)
            + "\n"@
    } else if c == "demo"@ {
        &&& keep_shell
        &&& k1.console_text() == k0.console_text() + "\nSpawning demo process...\n"@
        &&& k1.fs_state() == k0.fs_state() && k1.ticks() == k0.ticks() && k1.msgs() == k0.msgs()
            && k1.time_spec() == k0.time_spec() && k1.timestamp_view() == k0.timestamp_view()
            && k1.stepping_at() == k0.stepping_at() && k1.stepped() == k0.stepped()
            && k1.delivered() == k0.delivered() && k1.kill_flag() == k0.kill_flag()
            && k1.died() == k0.died()
        &&& k1.last_pid() == k0.last_pid() + 1
        &&& k1.assigned() == k0.assigned().push(((k0.last_pid() + 1) as usize))
        &&& exists|b: ProcessBody|
            #![trigger k0.procs().push((ProcessRecord { pid: ((k0.last_pid() + 1) as usize), body: b }))]
            b is Demo && b->Demo_0@ == (DemoV {
                pid: ((k0.last_pid() + 1) as usize),
                counter: 0,
                life: DEMO_LIFE,
                shell_pid: s0@.pid,
            }) && k1.procs() == k0.procs().push(
                (ProcessRecord { pid: ((k0.last_pid() + 1) as usize), body: b }),
            )
    } else if is_prefix("mkdir"@, c) {
        &&& keep_shell
        &&& keep_sched
        &&& k1.ticks() == k0.ticks() && k1.msgs() == k0.msgs() && k1.time_spec() == k0.time_spec()
            && k1.timestamp_view() == k0.timestamp_view() && k1.stepping_at() == k0.stepping_at()
            && k1.stepped() == k0.stepped() && k1.delivered() == k0.delivered()
        &&& k1.console_text() == k0.console_text() + shell_mkdir_text(
            k0.fs_state(),
            s0@.folder,
            c,
        )
        &&& k1.fs_state().is_ready() == k0.fs_state().is_ready()
        &&& k1.fs_state().wf()
        &&& (!mkdir_has_bad_flag(c) && mkdir_folders(c).len() > 0 ==> k1.fs_state().path_set()
            == mkdir_sim(
            k0.fs_state().is_ready(),
            k0.fs_state().path_set(),
            s0@.folder,
            mkdir_folders(c),
        ).1)
        &&& (mkdir_has_bad_flag(c) || mkdir_folders(c).len() == 0 ==> k1.fs_state()
            == k0.fs_state())
        &&& mkdir_entries_rel(k0.fs_state(), k1.fs_state())
    } else if is_prefix("time"@, c) {
        keep_shell && keep_sched && keep_rest && k1.console_text() == k0.console_text()
            + shell_time_text(k0.timestamp_view(), k0.time_spec(), c)
    } else if is_prefix("top"@, c) {
        keep_shell && keep_sched && keep_rest && k1.console_text() == k0.console_text()
            + shell_top_text(k0.procs(), c)
    } else {
        keep_shell && keep_sched && keep_rest && k1.console_text() == k0.console_text() + "\nUnknown: "@
            + c + "\n"@
    }
}

/// The largest index at or below `d` holding a line break, or -1 if none.
pub open spec fn last_nl_at_most(s: Seq<char>, d: int) -> int
    decreases d + 1,
    when d < s.len()
{
    if d < 0 {
        -1
    } else if s[d] == '\n' {
        d
    } else {
        last_nl_at_most(s, d - 1)
    }
}

/// Whether the console text ends with a completed line.
pub open spec fn ends_nl(text: Seq<char>) -> bool {
    text.len() > 0 && text.last() == '\n'
}

/// The final line of the console text, as line iteration reports it: the
/// segment after the last interior line break, without its terminator and
/// without a carriage return before that terminator.
pub open spec fn last_line_spec(text: Seq<char>) -> Seq<char> {
    let t = if ends_nl(text) {
        text.drop_last()
    } else {
        text
    };
    let u = t.skip(last_nl_at_most(t, t.len() - 1) + 1);
    if ends_nl(text) && u.len() > 0 && u.last() == '\r' {
        u.drop_last()
    } else {
        u
    }
}

/// The final line of the text, and whether the text ends with a line break.
fn last_line(text: &str) -> (r: (String, bool))
    ensures
        r.0@ == last_line_spec(text@),
        r.1 == ends_nl(text@),
{
    let cs = chars_vec(text);
    let n = cs.len();
    if n == 0 {
        proof {
            assert(last_line_spec(text@) =~= text@);
        }
        return (String::new(), false);
    }
    let ends = cs[n - 1] == '\n';
    let end0: usize = if ends {
        n - 1
    } else {
        n
    };
    let ghost t = if ends_nl(text@) {
        text@.drop_last()
    } else {
        text@
    };
    proof {
        assert(t =~= text@.subrange(0, end0 as int));
    }
    let mut j: usize = end0;
    while j > 0 && cs[j - 1] != '\n'
        invariant
            0 <= j <= end0 <= n,
            n == cs@.len(),
            cs@ == text@,
            t == text@.subrange(0, end0 as int),
            last_nl_at_most(t, end0 - 1) == last_nl_at_most(t, j - 1),
        decreases j,
    {
        proof {
            assert(t[j - 1] == text@[j - 1]);
        }
        j = j - 1;
    }
    proof {
        if j > 0 {
            assert(t[j - 1] == text@[j - 1]);
            assert(last_nl_at_most(t, j - 1) == j - 1);
        } else {
            assert(last_nl_at_most(t, -1) == -1);
        }
    }
    let mut end = end0;
    if ends && end > j && cs[end - 1] == '\r' {
        end = end - 1;
    }
    let mut out: Vec<char> = Vec::new();
    let mut m = j;
    while m < end
        invariant
            j <= m <= end <= n,
            n == cs@.len(),
            cs@ == text@,
            out@ =~= text@.subrange(j as int, m as int),
        decreases end - m,
    {
        out.push(cs[m]);
        m = m + 1;
    }
    proof {
        let u = t.skip(last_nl_at_most(t, t.len() - 1) + 1);
        assert(u =~= text@.subrange(j as int, end0 as int));
        if ends_nl(text@) && u.len() > 0 && u.last() == '\r' {
            assert(out@ =~= u.drop_last());
        } else {
            assert(out@ =~= u);
        }
    }
    (string_of_chars(&out), ends)
}

/// Whether the first tick's welcome banner is due.
pub open spec fn welcome_due(s: Shell, k: Kernel) -> bool {
    k.ticks() == 1 && s@.buffer.len() == 0
}

/// The console text after the welcome banner, if one is due.
pub open spec fn console_after_welcome(s: Shell, k: Kernel) -> Seq<char> {
    if welcome_due(s, k) {
        k.console_text() + welcome_spec() + prompt_spec(s@.folder)
    } else {
        k.console_text()
    }
}

/// How one shell step relates the shell and kernel states around it.
///
/// The shell prints the banner on the first tick; while waiting for input it
/// reads the console, takes the final line, and acts only when that line is
/// completed and either empty (the prompt is reprinted) or a match for the
/// prompt grammar (the command text is dispatched and a fresh prompt
/// follows). While not waiting, or without a completed matching line, it
/// changes nothing further.
pub open spec fn shell_tick_rel(s0: Shell, s1: Shell, k0: Kernel, k1: Kernel) -> bool {
    let text = console_after_welcome(s0, k0);
    let line = last_line_spec(text);
    let fires = s0@.waiting_for_input && ends_nl(text) && (line.len() == 0 || prompt_matches(
        line,
    ));
    if !fires {
        s1@ == s0@ && k1.console_text() == text && frame_all_but_console(k0, k1)
    } else if line.len() == 0 {
        s1@ == s0@ && k1.console_text() == text + prompt_spec(s0@.folder)
            && frame_all_but_console(k0, k1)
    } else if prompt_command(line).len() == 0 {
        s1@ == s0@ && k1.console_text() == text + "\n"@ + prompt_spec(s0@.folder)
            && frame_all_but_console(k0, k1)
    } else {
        exists|ka: Kernel, kb: Kernel|
            #![trigger execute_command_rel(s0, s1, ka, kb, prompt_command(line))]
            ka.console_text() == text && frame_all_but_console(k0, ka) && execute_command_rel(
                s0,
                s1,
                ka,
                kb,
                prompt_command(line),
            ) && k1.console_text() == kb.console_text() + "\n"@ + prompt_spec(s0@.folder)
                && frame_all_but_console(kb, k1)
    }
}

/// A fresh shell process for the kernel to install: waiting for input, with
/// an empty buffer, at the filesystem root.
pub fn make_shell() -> (r: ProcessBody)
    ensures
        r is Shell,
        r->Shell_0@ == (ShellV {
            pid: 0,
            buffer: Seq::<char>::empty(),
            waiting_for_input: true,
            folder: "/"@,
        }),
{
    ProcessBody::Shell(Shell::new())
}

/// The shell process the kernel installs at startup.
pub fn init() -> (r: ProcessBody)
    ensures
        r is Shell,
        r->Shell_0@ == (ShellV {
            pid: 0,
            buffer: Seq::<char>::empty(),
            waiting_for_input: true,
            folder: "/"@,
        }),
{
    make_shell()
}

} // verus!
