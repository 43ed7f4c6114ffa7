use rtrs::log::ModuleMetaManager;
use rtrs::log::Severity;
use rtrs::runtime::init_runtime;
use rtrs::runtime::Runtime;

fn drain_console_lg(rt: &mut Runtime) -> Vec<String> {
    let g = rt.store.checkout("console").unwrap();
    let t = rt.store.tty_mut(&g);
    let lines = t.drain_output();
    rt.store.checkin(g);
    lines
}

#[test]
fn log_severity_then_list_shows_warn() {
    let mut rt = init_runtime();
    let shell = rtrs::cmd::create_shell();
    assert_eq!(shell.run(&mut rt, "log severity test Warn"), 0);
    assert_eq!(shell.run(&mut rt, "log list"), 0);
    let lines = drain_console_lg(&mut rt);
    assert!(lines.contains(&"test: >Warn <255".to_string()));
}

#[test]
fn log_level_then_list() {
    let mut rt = init_runtime();
    let shell = rtrs::cmd::create_shell();
    assert_eq!(shell.run(&mut rt, "log level radio 7"), 0);
    assert_eq!(shell.run(&mut rt, "log list"), 0);
    let lines = drain_console_lg(&mut rt);
    assert!(lines.contains(&"radio: >Trace <7".to_string()));
}

#[test]
fn log_module_severity_level_together() {
    let mut rt = init_runtime();
    let shell = rtrs::cmd::create_shell();
    assert_eq!(shell.run(&mut rt, "log radio Error 3"), 0);
    assert_eq!(shell.run(&mut rt, "log list"), 0);
    let lines = drain_console_lg(&mut rt);
    assert!(lines.contains(&"radio: >Error <3".to_string()));
}

#[test]
fn log_list_shows_boot_registrations() {
    let mut rt = init_runtime();
    let shell = rtrs::cmd::create_shell();
    assert_eq!(shell.run(&mut rt, "log list"), 0);
    let lines = drain_console_lg(&mut rt);
    assert_eq!(
        lines,
        vec![
            "test: >Trace <255".to_string(),
            "shell: >Trace <255".to_string(),
            "radio: >Trace <2".to_string(),
            "alloc: >Warn <0".to_string(),
        ]
    );
}

#[test]
fn log_print_emits_ad_hoc_line() {
    let mut rt = init_runtime();
    let shell = rtrs::cmd::create_shell();
    assert_eq!(shell.run(&mut rt, "log print Warn 0 hello there"), 0);
    assert_eq!(
        drain_console_lg(&mut rt),
        vec!["[Warn] shell: Warn 0 hello there ".to_string()]
    );
}

#[test]
fn log_print_respects_module_filter() {
    let mut rt = init_runtime();
    let shell = rtrs::cmd::create_shell();
    assert_eq!(shell.run(&mut rt, "log severity shell Fatal"), 0);
    assert_eq!(shell.run(&mut rt, "log print Warn 0 muted"), 0);
    assert!(drain_console_lg(&mut rt).is_empty());
    // `time` logs at Info through the shell module: muted as well.
    assert_eq!(shell.run(&mut rt, "time"), 0);
    assert!(drain_console_lg(&mut rt).is_empty());
}

#[test]
fn log_help_prints_usage() {
    let mut rt = init_runtime();
    let shell = rtrs::cmd::create_shell();
    assert_eq!(shell.run(&mut rt, "log help"), 0);
    let lines = drain_console_lg(&mut rt);
    assert_eq!(lines.len(), 6);
    assert_eq!(lines[0], "log help - Shows this message".to_string());
}

#[test]
fn log_severity_parse_and_names() {
    assert_eq!(Severity::parse("Warn"), Severity::Warn);
    assert_eq!(Severity::parse("Fatal"), Severity::Fatal);
    assert_eq!(Severity::parse("bogus"), Severity::Trace);
    assert_eq!(Severity::Warn.name(), "Warn".to_string());
    assert!(Severity::Trace.rank() < Severity::Info.rank());
    assert!(Severity::Error.rank() < Severity::Fatal.rank());
}

#[test]
fn log_meta_allows_filtering() {
    let mut m = ModuleMetaManager::new();
    m.register("m", Severity::Warn, 3);
    assert!(m.allows("m", Severity::Warn, 3));
    assert!(m.allows("m", Severity::Fatal, 0));
    assert!(!m.allows("m", Severity::Info, 0));
    assert!(!m.allows("m", Severity::Error, 4));
    assert!(!m.allows("unknown", Severity::Fatal, 0));
}

#[test]
fn log_meta_set_severity_keeps_level() {
    let mut m = ModuleMetaManager::new();
    m.register("m", Severity::Trace, 9);
    m.set_severity("m", Severity::Error);
    let lines = m.format_lines();
    assert_eq!(lines, vec!["m: >Error <9".to_string()]);
}

#[test]
fn log_meta_set_level_keeps_severity() {
    let mut m = ModuleMetaManager::new();
    m.register("m", Severity::Warn, 0);
    m.set_level("m", 42);
    let lines = m.format_lines();
    assert_eq!(lines, vec!["m: >Warn <42".to_string()]);
}

#[test]
fn log_meta_set_on_missing_module_creates_entry() {
    let mut m = ModuleMetaManager::new();
    m.set_severity("fresh", Severity::Info);
    assert_eq!(m.format_lines(), vec!["fresh: >Info <255".to_string()]);
    let mut m2 = ModuleMetaManager::new();
    m2.set_level("fresh", 5);
    assert_eq!(m2.format_lines(), vec!["fresh: >Trace <5".to_string()]);
}
