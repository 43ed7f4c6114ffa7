use rtrs::callback::CallbackType;
use rtrs::callback::Invocation;
use rtrs::runtime::init_runtime;
use rtrs::runtime::system_tick;
use rtrs::runtime::Runtime;

fn drain_console_sh(rt: &mut Runtime) -> Vec<String> {
    let g = rt.store.checkout("console").unwrap();
    let t = rt.store.tty_mut(&g);
    let lines = t.drain_output();
    rt.store.checkin(g);
    lines
}

fn push_input_sh(rt: &mut Runtime, line: &str) {
    let g = rt.store.checkout("console").unwrap();
    let t = rt.store.tty_mut(&g);
    t.push_input(line.to_string());
    rt.store.checkin(g);
}

#[test]
fn shell_unknown_command_reports_and_changes_nothing() {
    let mut rt = init_runtime();
    let shell = rtrs::cmd::create_shell();
    let free_before = rt.heap.free_space();
    let keys_before = rt.store.keys();
    let st = shell.run(&mut rt, "foo");
    assert_eq!(st, 1);
    let lines = drain_console_sh(&mut rt);
    assert_eq!(lines, vec!["Unknown command: foo".to_string()]);
    assert_eq!(rt.heap.free_space(), free_before);
    assert_eq!(rt.store.keys(), keys_before);
    assert!(!rt.halted);
    assert!(rt.pending.is_empty());
}

#[test]
fn shell_empty_line_is_noop() {
    let mut rt = init_runtime();
    let shell = rtrs::cmd::create_shell();
    assert_eq!(shell.run(&mut rt, "   "), 0);
    assert!(drain_console_sh(&mut rt).is_empty());
}

#[test]
fn shell_echo_joins_arguments() {
    let mut rt = init_runtime();
    let shell = rtrs::cmd::create_shell();
    assert_eq!(shell.run(&mut rt, "echo hello  world"), 0);
    assert_eq!(drain_console_sh(&mut rt), vec!["hello world".to_string()]);
}

#[test]
fn shell_set_and_env() {
    let mut rt = init_runtime();
    let shell = rtrs::cmd::create_shell();
    assert_eq!(shell.run(&mut rt, "set GREETING hi"), 0);
    assert_eq!(shell.run(&mut rt, "env"), 0);
    assert_eq!(drain_console_sh(&mut rt), vec!["GREETING=hi".to_string()]);
    assert_eq!(shell.run(&mut rt, "set GREETING bye"), 0);
    assert_eq!(shell.run(&mut rt, "env"), 0);
    assert_eq!(drain_console_sh(&mut rt), vec!["GREETING=bye".to_string()]);
}

#[test]
fn shell_set_usage_on_missing_args() {
    let mut rt = init_runtime();
    let shell = rtrs::cmd::create_shell();
    assert_eq!(shell.run(&mut rt, "set ONLY"), 1);
    assert_eq!(drain_console_sh(&mut rt), vec!["set NAME VALUE".to_string()]);
}

#[test]
fn shell_help_lists_every_command() {
    let mut rt = init_runtime();
    let shell = rtrs::cmd::create_shell();
    assert_eq!(shell.run(&mut rt, "help"), 0);
    let lines = drain_console_sh(&mut rt);
    assert_eq!(lines.len(), 11);
    assert_eq!(lines[0], "help - Prints help".to_string());
    assert!(lines.contains(&"mem - Memory control".to_string()));
    assert!(lines.contains(&"test - Run Tests".to_string()));
}

#[test]
fn shell_obj_lists_boot_objects() {
    let mut rt = init_runtime();
    let shell = rtrs::cmd::create_shell();
    assert_eq!(shell.run(&mut rt, "obj list"), 0);
    let lines = drain_console_sh(&mut rt);
    assert_eq!(
        lines,
        vec![
            "  console".to_string(),
            "  logger_meta".to_string(),
            "  time".to_string(),
        ]
    );
    assert_eq!(shell.run(&mut rt, "obj"), 0);
    assert_eq!(drain_console_sh(&mut rt).len(), 3);
    assert_eq!(shell.run(&mut rt, "obj bogus"), 1);
    assert_eq!(
        drain_console_sh(&mut rt),
        vec!["Unknown subcommand: bogus".to_string()]
    );
}

#[test]
fn shell_time_logs_tick() {
    let mut rt = init_runtime();
    let shell = rtrs::cmd::create_shell();
    assert_eq!(shell.run(&mut rt, "time"), 0);
    assert_eq!(
        drain_console_sh(&mut rt),
        vec!["[Info] shell: tick: 0".to_string()]
    );
    system_tick(&mut rt);
    system_tick(&mut rt);
    system_tick(&mut rt);
    shell.run(&mut rt, "time");
    assert_eq!(
        drain_console_sh(&mut rt),
        vec!["[Info] shell: tick: 3".to_string()]
    );
}

#[test]
fn shell_cycle_runs_queued_line() {
    let mut rt = init_runtime();
    let shell = rtrs::cmd::create_shell();
    push_input_sh(&mut rt, "echo hi");
    assert_eq!(shell.cycle(&mut rt), Some(0));
    assert_eq!(drain_console_sh(&mut rt), vec!["hi".to_string()]);
    assert_eq!(shell.cycle(&mut rt), None);
}

#[test]
fn shell_cycle_reports_failing_status() {
    let mut rt = init_runtime();
    let shell = rtrs::cmd::create_shell();
    push_input_sh(&mut rt, "nonsense");
    assert_eq!(shell.cycle(&mut rt), Some(1));
    let lines = drain_console_sh(&mut rt);
    assert_eq!(
        lines,
        vec!["Unknown command: nonsense".to_string(), "exit: 1".to_string()]
    );
}

#[test]
fn shell_crash_queues_registered_dispatch() {
    let mut rt = init_runtime();
    let shell = rtrs::cmd::create_shell();
    assert_eq!(shell.run(&mut rt, "crash"), 0);
    assert!(rt.pending.is_empty());
    rt.board.register_callback(CallbackType::TriggerCrash(4));
    assert_eq!(shell.run(&mut rt, "crash"), 0);
    assert_eq!(rt.pending, vec![Invocation { handler: 4, arg: None }]);
}

#[test]
fn shell_systick_dispatch_decision() {
    let mut rt = init_runtime();
    assert_eq!(system_tick(&mut rt), None);
    rt.board.register_callback(CallbackType::Systick(1));
    assert_eq!(
        system_tick(&mut rt),
        Some(Invocation { handler: 1, arg: None })
    );
}
