use r_os::demo::DemoProcess;
use r_os::kernel::Kernel;
use r_os::kernel::PID_DEFAULT_SYSTEM_SHELL;
use r_os::process::ProcessBody;
use r_os::shell::command::cd::CdCommand;
use r_os::shell::command::exists_cmd::ExistsCommand;
use r_os::shell::command::ls::LsCommand;
use r_os::shell::command::mkdir::MkDirCommand;
use r_os::shell::command::time::TimeCommand;
use r_os::shell::command::top::TopCommand;
use r_os::shell::make_shell;
use r_os::shell::parse_prompt_line;
use r_os::shell::Shell;
use r_os::text::chars_vec;
use r_os::vfs::entry::FSEntry;
use r_os::vfs::entry::FSEntryKind;
use r_os::vfs::entry::FSEntryMetadata;
use r_os::vfs::entry::FSFolder;

fn ready_kernel() -> Kernel {
    let mut k = Kernel::new();
    k.init();
    k
}

#[test]
fn prompt_grammar_extracts_the_command_text() {
    let line = chars_vec("user@r-os:/$ ls -a");
    assert_eq!(parse_prompt_line(&line), Some(13));
    let tail: String = "user@r-os:/$ ls -a".chars().skip(13).collect();
    assert_eq!(tail, "ls -a");
}

#[test]
fn prompt_grammar_ignores_lines_without_a_prompt() {
    assert_eq!(parse_prompt_line(&chars_vec("ls -a")), None);
    // A trailing space is itself a (whitespace) command under the greedy
    // grammar, as unanchored matching has it.
    assert_eq!(parse_prompt_line(&chars_vec("user@r-os:/$ ")), Some(12));
    assert_eq!(parse_prompt_line(&chars_vec("user@r-os:/$")), None);
    assert_eq!(parse_prompt_line(&chars_vec("@host:/$ x")), None);
    assert_eq!(parse_prompt_line(&chars_vec("")), None);
}

#[test]
fn prompt_grammar_takes_the_last_feasible_dollar() {
    // The path itself contains a dollar sign; the grammar binds to the last
    // one that leaves a command.
    let line = chars_vec("user@r-os:/a$b$ go");
    assert_eq!(parse_prompt_line(&line), Some(16));
}

#[test]
fn exists_command_reports_both_outcomes() {
    let mut k = ready_kernel();
    k.fs.create_folder_absolute("/here").unwrap();
    assert_eq!(
        ExistsCommand::execute(&mut k, "exists /here"),
        "Entry '/here' exists."
    );
    assert_eq!(
        ExistsCommand::execute(&mut k, "exists /gone"),
        "Entry '/gone' does not exist."
    );
    assert_eq!(ExistsCommand::execute(&mut k, "exists"), "exists: missing operand");
    assert_eq!(
        ExistsCommand::execute(&mut k, "exists /b\u{0}ad"),
        "exists: error checking existence of '/b\u{0}ad': InvalidPath"
    );
}

#[test]
fn cd_moves_the_working_directory_only_to_existing_folders() {
    let mut k = ready_kernel();
    k.fs.create_folder_absolute("/docs").unwrap();
    let mut cwd = "/".to_string();
    let ok = CdCommand::execute_data(&mut k, "cd /docs", &mut cwd);
    assert_eq!(ok, "Changed directory to '/docs'");
    assert_eq!(cwd, "/docs");
    let missing = CdCommand::execute_data(&mut k, "cd /nope", &mut cwd);
    assert_eq!(missing, "\nError: folder '/nope' does not exist.\n");
    assert_eq!(cwd, "/docs");
    assert_eq!(CdCommand::execute_data(&mut k, "cd", &mut cwd), "cd: missing operand");
}

#[test]
fn mkdir_creates_folders_and_reports_each_outcome() {
    let mut k = ready_kernel();
    let shell = Shell::new();
    let r = MkDirCommand::execute(&mut k, &shell, "mkdir /docs /docs/notes");
    assert_eq!(r, "/docs\n/docs/notes");
    assert!(k.console.contains("mkdir: created directory '/docs'"));
    assert!(k.console.contains("mkdir: created directory '/docs/notes'"));
    assert_eq!(k.fs.path_exists("/docs/notes"), Ok(true));
    let again = MkDirCommand::execute(&mut k, &shell, "mkdir /docs");
    assert_eq!(again, "");
    assert!(k.console.contains("mkdir: cannot create directory '/docs': File exists"));
}

#[test]
fn mkdir_resolves_relative_names_against_the_shell_folder() {
    let mut k = ready_kernel();
    k.fs.create_folder_absolute("/base").unwrap();
    let mut shell = Shell::new();
    let mut cwd = "/".to_string();
    CdCommand::execute_data(&mut k, "cd /base", &mut cwd);
    // Move the shell itself, as the dispatcher would; the result is framed
    // and appended to the console like any other command's.
    shell.execute_command("cd /base", &mut k);
    assert!(k.console.contains("\nChanged directory to '/base'\n"));
    let r = MkDirCommand::execute(&mut k, &shell, "mkdir sub -v");
    assert_eq!(r, "Created 1 directories");
    assert_eq!(k.fs.path_exists("/base/sub"), Ok(true));
}

#[test]
fn mkdir_reports_a_missing_parent() {
    let mut k = ready_kernel();
    let shell = Shell::new();
    let r = MkDirCommand::execute(&mut k, &shell, "mkdir /missing/child");
    assert_eq!(r, "");
    assert!(k
        .console
        .contains("mkdir: cannot create directory '/missing/child': Parent folder not found"));
}

#[test]
fn mkdir_without_operands_or_with_bad_options_parses_to_errors() {
    let mut k = ready_kernel();
    let shell = Shell::new();
    assert_eq!(MkDirCommand::execute(&mut k, &shell, "mkdir"), "mkdir: missing operand");
    assert_eq!(MkDirCommand::execute(&mut k, &shell, "mkdir -q /x"), "mkdir: invalid option");
}

#[test]
fn ls_lists_seeded_entries_with_rendered_stamps() {
    let mut k = ready_kernel();
    k.fs.write(
        "/epoch",
        FSEntry {
            abs_path: "/epoch".to_string(),
            entry: FSEntryKind::Folder(FSFolder {
                metadata: FSEntryMetadata {
                    is_hidden: false,
                    name: "epoch".to_string(),
                    created_at: 0,
                    modified_at: 0,
                },
            }),
        },
    );
    let rows = LsCommand::execute(&mut k, "ls");
    assert!(rows.starts_with("/epoch"));
    // The epoch renders at minute precision through the date library.
    assert!(rows.contains("1970-01-01 00:00"));
    assert!(k.console.contains("Name"));
    let bare = LsCommand::execute(&mut k, "ls -a");
    assert_eq!(bare, "/epoch");
}

#[test]
fn ls_orders_rows_lexicographically() {
    let mut k = ready_kernel();
    let shell = Shell::new();
    MkDirCommand::execute(&mut k, &shell, "mkdir /docs");
    MkDirCommand::execute(&mut k, &shell, "mkdir /docs/notes");
    let rows = LsCommand::execute(&mut k, "ls -a");
    assert_eq!(rows, "/docs\n/docs/notes");
}

#[test]
fn time_and_top_render_the_kernel_state() {
    let mut k = ready_kernel();
    k.set_time(42);
    k.set_timestamp("1970-01-01 00:00:00".to_string());
    TimeCommand::execute(&mut k, "time");
    assert!(k.console.contains("Timestamp: 1970-01-01 00:00:00"));
    assert!(k.console.contains("UNIX Epoch (mills): 42"));
    k.spawn_with_pid(make_shell(), PID_DEFAULT_SYSTEM_SHELL);
    TopCommand::execute(&mut k, "top");
    assert!(k.console.contains("shell"));
    assert!(k.console.contains("2"));
}

#[test]
fn shell_dispatch_end_to_end() {
    let mut k = ready_kernel();
    let mut shell = Shell::new();
    shell.execute_command("mkdir /docs", &mut k);
    shell.execute_command("mkdir /docs/notes", &mut k);
    shell.execute_command("exists /docs/notes", &mut k);
    assert!(k.console.contains("Entry '/docs/notes' exists."));
    shell.execute_command("mkdir /missing/child", &mut k);
    assert!(k.console.contains("Parent folder not found"));
    shell.execute_command("ls -a", &mut k);
    assert!(k.console.contains("/docs\n/docs/notes"));
}

#[test]
fn shell_reports_unknown_commands() {
    let mut k = ready_kernel();
    let mut shell = Shell::new();
    shell.execute_command("frobnicate", &mut k);
    assert!(k.console.contains("\nUnknown: frobnicate\n"));
}

#[test]
fn echo_strips_its_command_words_and_trims() {
    let mut k = ready_kernel();
    let mut shell = Shell::new();
    shell.execute_command("echo   hello world  ", &mut k);
    assert!(k.console.contains("\nhello world\n"));
}

#[test]
fn echo_strips_repeated_command_words() {
    let mut k = ready_kernel();
    let mut shell = Shell::new();
    shell.execute_command("echo echo hi", &mut k);
    assert!(k.console.contains("\nhi\n"));
}

#[test]
fn help_and_clear_built_ins() {
    let mut k = ready_kernel();
    let mut shell = Shell::new();
    shell.execute_command("help", &mut k);
    assert!(k.console.contains("Commands: help, clear, ls, echo <text>, spawn_demo"));
    shell.execute_command("clear", &mut k);
    assert_eq!(k.console, "");
}

#[test]
fn shell_executes_a_completed_prompt_line_from_the_console() {
    let mut k = ready_kernel();
    k.spawn_with_pid(make_shell(), PID_DEFAULT_SYSTEM_SHELL);
    k.tick();
    assert!(k.console.contains("Welcome to R-OS"));
    assert!(k.console.ends_with("user@r-os:/$ "));
    k.console.push_str("mkdir /t\n");
    k.tick();
    assert_eq!(k.fs.path_exists("/t"), Ok(true));
    assert!(k.console.ends_with("user@r-os:/$ "));
}

#[test]
fn shell_ignores_lines_without_a_trailing_line_break() {
    let mut k = ready_kernel();
    k.spawn_with_pid(make_shell(), PID_DEFAULT_SYSTEM_SHELL);
    k.tick();
    k.console.push_str("mkdir /t");
    k.tick();
    assert_eq!(k.fs.path_exists("/t"), Ok(false));
}

#[test]
fn bare_prompt_reprints_the_prompt() {
    let mut k = ready_kernel();
    k.spawn_with_pid(make_shell(), PID_DEFAULT_SYSTEM_SHELL);
    k.tick();
    let before = k.console.len();
    k.console.push_str("\n\n");
    k.tick();
    assert!(k.console.len() > before);
    assert!(k.console.ends_with("user@r-os:/$ "));
}

#[test]
fn demo_process_scenario() {
    let mut k = ready_kernel();
    k.spawn_with_pid(make_shell(), PID_DEFAULT_SYSTEM_SHELL);
    k.tick();
    // Spawn the demo through the shell.
    k.console.push_str("demo\n");
    k.tick();
    assert!(k.console.contains("Spawning demo process..."));
    // First demo step: progress line, and the shell's prompt is taken away.
    k.tick();
    assert!(k.console.contains("[demo] tick 0 (120 left)"));
    // The shell must not accept new input while the demo holds the prompt.
    k.console.push_str("user@r-os:/$ mkdir /blocked\n");
    k.tick();
    assert_eq!(k.fs.path_exists("/blocked"), Ok(false));
    // Let the demo count down and terminate itself.
    let mut i = 0;
    while i < 130 {
        k.tick();
        i += 1;
    }
    assert!(k.console.contains("[demo] demo process is about to terminate..."));
    // The demo killed itself: only the shell remains.
    assert_eq!(k.proc_count(), 1);
    // The shell accepts input again.
    k.console.push_str("user@r-os:/$ mkdir /after\n");
    k.tick();
    assert_eq!(k.fs.path_exists("/after"), Ok(true));
}
