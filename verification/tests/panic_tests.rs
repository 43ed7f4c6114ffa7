use rtrs::runtime::init_runtime;
use rtrs::runtime::panic_report;
use rtrs::runtime::Runtime;

fn drain_console_pt(rt: &mut Runtime) -> Vec<String> {
    let g = rt.store.checkout("console").unwrap();
    let t = rt.store.tty_mut(&g);
    let lines = t.drain_output();
    rt.store.checkin(g);
    lines
}

#[test]
fn panic_report_reaches_console_with_guard_outstanding() {
    let mut rt = init_runtime();
    // A guard is mid-borrow when the panic strikes.
    let _held = rt.store.checkout("console").unwrap();
    panic_report(&mut rt, "boom", None);
    assert!(rt.halted);
    // The borrow state was force-reset: the console is reachable again.
    let lines = drain_console_pt(&mut rt);
    assert_eq!(
        lines,
        vec!["        PANIC        ".to_string(), "Message:  boom".to_string()]
    );
}

#[test]
fn panic_report_plain() {
    let mut rt = init_runtime();
    panic_report(&mut rt, "sky fell", None);
    assert!(rt.halted);
    let lines = drain_console_pt(&mut rt);
    assert_eq!(lines[1], "Message:  sky fell".to_string());
}

#[test]
fn panic_report_with_location() {
    let mut rt = init_runtime();
    panic_report(&mut rt, "boom", Some("main.rs:42:9"));
    let lines = drain_console_pt(&mut rt);
    assert_eq!(
        lines,
        vec![
            "        PANIC        ".to_string(),
            "Message:  boom".to_string(),
            "Location: main.rs:42:9".to_string(),
        ]
    );
}

#[test]
fn panic_command_runs_recovery_pipeline() {
    let mut rt = init_runtime();
    let shell = rtrs::cmd::create_shell();
    let st = shell.run(&mut rt, "panic ouch");
    assert_eq!(st, 0);
    assert!(rt.halted);
    let lines = drain_console_pt(&mut rt);
    assert_eq!(
        lines,
        vec!["        PANIC        ".to_string(), "Message:  ouch".to_string()]
    );
}

#[test]
fn panic_command_default_message() {
    let mut rt = init_runtime();
    let shell = rtrs::cmd::create_shell();
    shell.run(&mut rt, "panic");
    let lines = drain_console_pt(&mut rt);
    assert_eq!(lines[1], "Message:  Manual panic".to_string());
}
