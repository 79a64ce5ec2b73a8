use r_os::demo::DemoProcess;
use r_os::kernel::Kernel;
use r_os::kernel::Message;
use r_os::kernel::PID_DEFAULT_SYSTEM_SHELL;
use r_os::process::ProcessBody;
use r_os::shell::make_shell;

fn pids_of(k: &Kernel) -> Vec<usize> {
    let mut v = Vec::new();
    let mut i = 0;
    while i < k.proc_count() {
        let (_, pid) = k.proc_name_pid(i);
        v.push(pid);
        i += 1;
    }
    v
}

#[test]
fn spawned_pids_strictly_increase_and_are_never_reused() {
    let mut k = Kernel::new();
    k.init();
    k.spawn(make_shell());
    k.spawn(make_shell());
    k.spawn(make_shell());
    assert_eq!(pids_of(&k), vec![1001, 1002, 1003]);
    k.kill(1002);
    assert_eq!(pids_of(&k), vec![1001, 1003]);
    // The freed pid is not handed out again.
    k.spawn(make_shell());
    assert_eq!(pids_of(&k), vec![1001, 1003, 1004]);
}

#[test]
fn kill_of_absent_pid_is_a_no_op() {
    let mut k = Kernel::new();
    k.init();
    k.spawn(make_shell());
    k.kill(4242);
    assert_eq!(pids_of(&k), vec![1001]);
}

#[test]
fn killed_process_is_never_stepped_again() {
    let mut k = Kernel::new();
    k.init();
    // A demo process prints a progress line on its first step.
    k.spawn(ProcessBody::Demo(DemoProcess::new(77)));
    let demo_pid = 1001;
    k.kill(demo_pid);
    k.tick();
    k.tick();
    assert!(!k.console.contains("[demo]"));
    assert!(pids_of(&k).is_empty());
}

#[test]
fn message_to_absent_pid_is_dropped_without_error() {
    let mut k = Kernel::new();
    k.init();
    k.send(999, Message::Print("never seen".to_string()));
    k.tick();
    assert!(!k.console.contains("never seen"));
    assert_eq!(k.tick_count, 1);
}

#[test]
fn delivery_order_within_one_tick_is_fifo() {
    let mut k = Kernel::new();
    k.init();
    k.spawn_with_pid(make_shell(), PID_DEFAULT_SYSTEM_SHELL);
    // Tagged probes enqueued in a known interleaving, to the same target.
    k.send(PID_DEFAULT_SYSTEM_SHELL, Message::Print("<first>".to_string()));
    k.send(999, Message::Print("<dropped>".to_string()));
    k.send(PID_DEFAULT_SYSTEM_SHELL, Message::Print("<second>".to_string()));
    k.tick();
    let first = k.console.find("<first>").expect("first probe delivered");
    let second = k.console.find("<second>").expect("second probe delivered");
    assert!(first < second);
    assert!(!k.console.contains("<dropped>"));
}

#[test]
fn queue_is_fully_drained_every_tick() {
    let mut k = Kernel::new();
    k.init();
    k.spawn_with_pid(make_shell(), PID_DEFAULT_SYSTEM_SHELL);
    k.send(PID_DEFAULT_SYSTEM_SHELL, Message::Print("a".to_string()));
    k.send(PID_DEFAULT_SYSTEM_SHELL, Message::Print("b".to_string()));
    k.tick();
    assert!(k.messages.is_empty());
}

#[test]
fn spawn_with_pid_replaces_an_existing_record() {
    let mut k = Kernel::new();
    k.init();
    k.spawn_with_pid(make_shell(), PID_DEFAULT_SYSTEM_SHELL);
    k.spawn_with_pid(make_shell(), PID_DEFAULT_SYSTEM_SHELL);
    assert_eq!(pids_of(&k), vec![PID_DEFAULT_SYSTEM_SHELL]);
}

#[test]
fn tick_counter_is_monotonic() {
    let mut k = Kernel::new();
    k.init();
    k.tick();
    k.tick();
    k.tick();
    assert_eq!(k.tick_count, 3);
}

#[test]
fn print_appends_and_clear_empties_the_console() {
    let mut k = Kernel::new();
    k.print("one");
    k.print(" two");
    assert_eq!(k.console, "one two");
    k.clear();
    assert_eq!(k.console, "");
}

#[test]
fn clock_mirrors_hold_what_was_set() {
    let mut k = Kernel::new();
    k.set_time(123456789);
    k.set_timestamp("2009-02-13 23:31:30".to_string());
    assert_eq!(k.get_time(), 123456789);
    assert_eq!(k.get_timestamp(), "2009-02-13 23:31:30");
}

#[test]
fn system_clock_process_renders_the_time_mirror() {
    let mut k = Kernel::new();
    k.init();
    k.spawn_with_pid(r_os::clock::init(), r_os::kernel::PID_DEFAULT_SYSTEM_CLOCK);
    k.set_time(123456789000);
    k.tick();
    assert_eq!(k.get_timestamp(), "1973-11-29 21:33:09");
    assert_eq!(k.get_time(), 123456789000);
}
