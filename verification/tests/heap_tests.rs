use rtrs::heap::Heap;
use rtrs::heap::HEAP_BASE;
use rtrs::heap::HEAP_SIZE;
use rtrs::runtime::init_runtime;
use rtrs::runtime::Runtime;

fn drain_console_hp(rt: &mut Runtime) -> Vec<String> {
    let g = rt.store.checkout("console").unwrap();
    let t = rt.store.tty_mut(&g);
    let lines = t.drain_output();
    rt.store.checkin(g);
    lines
}

#[test]
fn heap_first_fit_addresses() {
    let mut h = Heap::new();
    assert_eq!(h.allocate(10), Some(HEAP_BASE));
    assert_eq!(h.allocate(24), Some(HEAP_BASE + 12));
    assert_eq!(h.free_space(), HEAP_SIZE - 12 - 24);
}

#[test]
fn heap_alloc_free_restores_accounting() {
    let mut h = Heap::new();
    assert_eq!(h.free_space(), HEAP_SIZE);
    let a = h.allocate(10).unwrap();
    assert_eq!(h.free_space(), HEAP_SIZE - 12);
    assert!(h.free(a));
    assert_eq!(h.free_space(), HEAP_SIZE);
}

#[test]
fn heap_out_of_order_frees_coalesce() {
    let mut h = Heap::new();
    let a1 = h.allocate(10).unwrap();
    let a2 = h.allocate(24).unwrap();
    assert!(h.free(a1));
    assert!(h.free(a2));
    assert_eq!(h.free_space(), HEAP_SIZE);
    // The whole arena coalesced back into one block.
    assert_eq!(h.allocate(HEAP_SIZE), Some(HEAP_BASE));
}

#[test]
fn heap_invalid_pointers_refused() {
    let mut h = Heap::new();
    assert!(!h.free(0));
    assert!(!h.free(HEAP_BASE + 8));
    let a = h.allocate(16).unwrap();
    assert!(h.free(a));
    assert!(!h.free(a));
}

#[test]
fn heap_requests_beyond_capacity_fail() {
    let mut h = Heap::new();
    assert_eq!(h.allocate(HEAP_SIZE + 1), None);
    assert_eq!(h.allocate(HEAP_SIZE), Some(HEAP_BASE));
    assert_eq!(h.allocate(1), None);
}

#[test]
fn heap_zero_sized_request_takes_minimum_block() {
    let mut h = Heap::new();
    assert_eq!(h.allocate(0), Some(HEAP_BASE));
    assert_eq!(h.free_space(), HEAP_SIZE - 4);
}

#[test]
fn heap_dump_reports_blocks_and_free_total() {
    let mut h = Heap::new();
    let lines = h.dump();
    assert_eq!(lines, vec!["0x1000 +2048 free".to_string(), "free 2048".to_string()]);
    let a = h.allocate(10).unwrap();
    let lines2 = h.dump();
    assert_eq!(
        lines2,
        vec![
            "0x1000 +12 used".to_string(),
            "0x100c +2036 free".to_string(),
            "free 2036".to_string(),
        ]
    );
    assert!(h.free(a));
}

#[test]
fn mem_alloc_then_free_restores_accounting() {
    let mut rt = init_runtime();
    let shell = rtrs::cmd::create_shell();
    let free_before = rt.heap.free_space();
    assert_eq!(shell.run(&mut rt, "mem alloc 10"), 0);
    let lines = drain_console_hp(&mut rt);
    assert_eq!(lines, vec!["alloc(10): 0x1000".to_string()]);
    // Free the returned address, quoted back in hex as printed.
    let addr_hex = lines[0].split("0x").nth(1).unwrap();
    assert_eq!(shell.run(&mut rt, &format!("mem free 0x{}", addr_hex)), 0);
    assert!(drain_console_hp(&mut rt).is_empty());
    assert_eq!(rt.heap.free_space(), free_before);
}

#[test]
fn mem_invalid_pointer_reported() {
    let mut rt = init_runtime();
    let shell = rtrs::cmd::create_shell();
    assert_eq!(shell.run(&mut rt, "mem free zz"), 1);
    assert_eq!(
        drain_console_hp(&mut rt),
        vec!["Invalid value for pointer".to_string()]
    );
    assert_eq!(shell.run(&mut rt, "mem free 0"), 1);
    assert_eq!(
        drain_console_hp(&mut rt),
        vec!["Invalid value for pointer".to_string()]
    );
}

#[test]
fn mem_unparsable_size_reads_as_zero() {
    let mut rt = init_runtime();
    let shell = rtrs::cmd::create_shell();
    assert_eq!(shell.run(&mut rt, "mem alloc nonsense"), 0);
    assert_eq!(
        drain_console_hp(&mut rt),
        vec!["alloc(0): 0x1000".to_string()]
    );
}

#[test]
fn mem_usage_line() {
    let mut rt = init_runtime();
    let shell = rtrs::cmd::create_shell();
    assert_eq!(shell.run(&mut rt, "mem"), 0);
    assert_eq!(
        drain_console_hp(&mut rt),
        vec!["mem [help|info|alloc|free]".to_string()]
    );
    assert_eq!(shell.run(&mut rt, "mem help"), 0);
    assert_eq!(
        drain_console_hp(&mut rt),
        vec!["mem [help|info|alloc|free]".to_string()]
    );
}

#[test]
fn mem_unknown_subcommand_fails() {
    let mut rt = init_runtime();
    let shell = rtrs::cmd::create_shell();
    let free_before = rt.heap.free_space();
    assert_eq!(shell.run(&mut rt, "mem bogus"), 1);
    assert_eq!(
        drain_console_hp(&mut rt),
        vec!["mem [help|info|alloc|free]".to_string()]
    );
    assert_eq!(rt.heap.free_space(), free_before);
}

#[test]
fn mem_info_dumps_accounting() {
    let mut rt = init_runtime();
    let shell = rtrs::cmd::create_shell();
    assert_eq!(shell.run(&mut rt, "mem info"), 0);
    let lines = drain_console_hp(&mut rt);
    assert_eq!(
        lines,
        vec!["0x1000 +2048 free".to_string(), "free 2048".to_string()]
    );
}
