use rtrs::runtime::init_runtime;
use rtrs::runtime::Runtime;

fn drain_console_hn(rt: &mut Runtime) -> Vec<String> {
    let g = rt.store.checkout("console").unwrap();
    let t = rt.store.tty_mut(&g);
    let lines = t.drain_output();
    rt.store.checkin(g);
    lines
}

fn run_test_command(line: &str) -> (i8, Vec<String>) {
    let mut rt = init_runtime();
    let shell = rtrs::cmd::create_shell();
    let st = shell.run(&mut rt, line);
    let lines = drain_console_hn(&mut rt);
    (st, lines)
}

fn count_of(lines: &[String], needle: &str) -> usize {
    lines.iter().filter(|l| l.as_str() == needle).count()
}

#[test]
fn harness_order_is_fixed_regardless_of_tokens() {
    let (st1, out1) = run_test_command("test heap box");
    let (st2, out2) = run_test_command("test box heap");
    assert_eq!(st1, 0);
    assert_eq!(st2, 0);
    assert_eq!(out1, out2);
    let box_at = out1
        .iter()
        .position(|l| l == "[Trace] test: Running Test::Box")
        .unwrap();
    let heap_at = out1
        .iter()
        .position(|l| l == "[Trace] test: Running Test::Heap")
        .unwrap();
    assert!(box_at < heap_at);
}

#[test]
fn harness_all_runs_every_test_exactly_once() {
    let (st, out) = run_test_command("test all");
    assert_eq!(st, 0);
    assert_eq!(count_of(&out, "[Trace] test: Running Test::Task"), 1);
    assert_eq!(count_of(&out, "[Trace] test: Running Test::TaskIrq"), 1);
    assert_eq!(count_of(&out, "[Trace] test: Running Test::TaskNest"), 1);
    assert_eq!(count_of(&out, "[Trace] test: Running Test::TaskObj"), 1);
    assert_eq!(count_of(&out, "[Trace] test: Running Test::Logger"), 1);
    assert_eq!(count_of(&out, "[Trace] test: Running Test::Hexdump"), 1);
    assert_eq!(count_of(&out, "[Trace] test: Running Test::Box"), 1);
    assert_eq!(count_of(&out, "[Trace] test: Running Test::Heap"), 1);
    assert_eq!(count_of(&out, "task test done"), 1);
    assert_eq!(count_of(&out, "task-irq test done"), 1);
    assert_eq!(count_of(&out, "task-nest test done"), 1);
    assert_eq!(count_of(&out, "[Info] test: task1 finished with result: 0"), 1);
    assert_eq!(count_of(&out, "[Fatal] test: Test fatal"), 1);
    assert_eq!(count_of(&out, "Test123"), 1);
    assert_eq!(count_of(&out, "ChildObject1::beep 42"), 1);
    assert_eq!(count_of(&out, "alloc(10): 0x1000"), 1);
    assert_eq!(count_of(&out, "alloc(24): 0x1000"), 1);
}

#[test]
fn harness_repeated_tokens_run_once() {
    let (st, out) = run_test_command("test task task task");
    assert_eq!(st, 0);
    assert_eq!(count_of(&out, "task test done"), 1);
}

#[test]
fn harness_all_with_redundant_names_matches_all() {
    let (_, plain) = run_test_command("test all");
    let (_, redundant) = run_test_command("test heap all task");
    assert_eq!(plain, redundant);
}

#[test]
fn harness_help_prints_usage_and_runs_nothing() {
    let (st, out) = run_test_command("test help");
    assert_eq!(st, 0);
    assert_eq!(
        out,
        vec!["test [help|all|task|task-irq|task-nest|task-obj|logger|hexdump|box|heap]"
            .to_string()]
    );
}

#[test]
fn harness_unknown_token_aborts_selection() {
    let (st, out) = run_test_command("test heap bogus");
    assert_eq!(st, 1);
    assert_eq!(
        out,
        vec![
            "Unknown subcommand: bogus".to_string(),
            "test [help|all|task|task-irq|task-nest|task-obj|logger|hexdump|box|heap]"
                .to_string(),
        ]
    );
}

#[test]
fn harness_no_tokens_runs_nothing() {
    let (st, out) = run_test_command("test");
    assert_eq!(st, 0);
    assert!(out.is_empty());
}

#[test]
fn harness_logger_test_respects_filter() {
    let mut rt = init_runtime();
    let shell = rtrs::cmd::create_shell();
    // With the boot metadata, all five messages pass.
    assert_eq!(shell.run(&mut rt, "test logger"), 0);
    let out = drain_console_hn(&mut rt);
    assert_eq!(
        out,
        vec![
            "[Trace] test: Running Test::Logger".to_string(),
            "[Trace] test: Test trace".to_string(),
            "[Info] test: Test info 1".to_string(),
            "[Warn] test: Test warn".to_string(),
            "[Error] test: Test error 42".to_string(),
            "[Fatal] test: Test fatal".to_string(),
        ]
    );
    // Raise the bar: only Error and Fatal remain, and the trace line
    // announcing the test is muted too.
    assert_eq!(shell.run(&mut rt, "log severity test Error"), 0);
    assert_eq!(shell.run(&mut rt, "test logger"), 0);
    let out2 = drain_console_hn(&mut rt);
    assert_eq!(
        out2,
        vec![
            "[Error] test: Test error 42".to_string(),
            "[Fatal] test: Test fatal".to_string(),
        ]
    );
}

#[test]
fn harness_heap_test_restores_accounting() {
    let mut rt = init_runtime();
    let shell = rtrs::cmd::create_shell();
    let before = rt.heap.free_space();
    assert_eq!(shell.run(&mut rt, "test heap"), 0);
    assert_eq!(rt.heap.free_space(), before);
    let out = drain_console_hn(&mut rt);
    assert_eq!(
        out,
        vec![
            "[Trace] test: Running Test::Heap".to_string(),
            "0x1000 +2048 free".to_string(),
            "free 2048".to_string(),
            "alloc(10): 0x1000".to_string(),
            "alloc(24): 0x1000".to_string(),
            "0x1000 +2048 free".to_string(),
            "free 2048".to_string(),
        ]
    );
}

#[test]
fn harness_task_obj_round_trip() {
    let mut rt = init_runtime();
    let shell = rtrs::cmd::create_shell();
    let keys_before = rt.store.keys();
    assert_eq!(shell.run(&mut rt, "test task-obj"), 0);
    assert_eq!(rt.store.keys(), keys_before);
    let out = drain_console_hn(&mut rt);
    assert_eq!(
        out,
        vec![
            "[Trace] test: Running Test::TaskObj".to_string(),
            "Objects: console logger_meta time task1".to_string(),
            "[Info] test: task1 finished with result: 0".to_string(),
            "Objects: console logger_meta time".to_string(),
        ]
    );
}

#[test]
fn harness_hexdump_output() {
    let (st, out) = run_test_command("test hexdump");
    assert_eq!(st, 0);
    assert_eq!(
        out,
        vec![
            "[Trace] test: Running Test::Hexdump".to_string(),
            "Test123".to_string(),
            "Test 42 69".to_string(),
            "00 01 21 03 63 05 06 61 ff aa 55 ".to_string(),
        ]
    );
}

#[test]
fn harness_box_output() {
    let (st, out) = run_test_command("test box");
    assert_eq!(st, 0);
    assert_eq!(
        out,
        vec![
            "[Trace] test: Running Test::Box".to_string(),
            "ChildObject1::beep 42".to_string(),
            "TimeProvider::now 42".to_string(),
            "TimeProvider::now 69".to_string(),
        ]
    );
}
