//! The self-test harness: tokens accumulate a bitmask of requested tests,
//! and the selected tests then run in one fixed, declared order — however
//! the tokens were ordered. `all` selects every known test, `help` prints
//! the usage and runs nothing, and an unrecognized token aborts the
//! selection with a failing status before anything runs.

use vstd::prelude::*;

use crate::log::Severity;
use crate::runtime::console_appended;
use crate::runtime::lemma_console_appended_trans;
use crate::runtime::log_line;
use crate::runtime::logged;
use crate::runtime::print_str;
use crate::runtime::Runtime;

verus! {

/// The eight known self-tests.
#[derive(Clone, Copy, PartialEq, Eq, Structural, Debug)]
pub enum TestId {
    Task,
    TaskIrq,
    TaskNest,
    TaskObj,
    Logger,
    Hexdump,
    Boxed,
    Heap,
}

/// The bit each self-test owns; `all` is every one of them.
pub open spec fn test_bit(t: TestId) -> u32 {
    match t {
        TestId::Task => 0x01,
        TestId::TaskIrq => 0x02,
        TestId::TaskNest => 0x04,
        TestId::TaskObj => 0x08,
        TestId::Logger => 0x10,
        TestId::Hexdump => 0x20,
        TestId::Boxed => 0x40,
        TestId::Heap => 0x80,
    }
}

/// The token that selects each test.
pub open spec fn test_name(t: TestId) -> Seq<char> {
    match t {
        TestId::Task => "task"@,
        TestId::TaskIrq => "task-irq"@,
        TestId::TaskNest => "task-nest"@,
        TestId::TaskObj => "task-obj"@,
        TestId::Logger => "logger"@,
        TestId::Hexdump => "hexdump"@,
        TestId::Boxed => "box"@,
        TestId::Heap => "heap"@,
    }
}

/// The label the trace line shows for each test.
pub open spec fn test_label(t: TestId) -> Seq<char> {
    match t {
        TestId::Task => "Task"@,
        TestId::TaskIrq => "TaskIrq"@,
        TestId::TaskNest => "TaskNest"@,
        TestId::TaskObj => "TaskObj"@,
        TestId::Logger => "Logger"@,
        TestId::Hexdump => "Hexdump"@,
        TestId::Boxed => "Box"@,
        TestId::Heap => "Heap"@,
    }
}

/// The fixed execution order, independent of how tests were requested.
pub open spec fn test_order() -> Seq<TestId> {
    seq![
        TestId::Task,
        TestId::TaskIrq,
        TestId::TaskNest,
        TestId::TaskObj,
        TestId::Logger,
        TestId::Hexdump,
        TestId::Boxed,
        TestId::Heap,
    ]
}

/// Each test's position in the fixed order.
pub open spec fn order_index(t: TestId) -> int {
    match t {
        TestId::Task => 0,
        TestId::TaskIrq => 1,
        TestId::TaskNest => 2,
        TestId::TaskObj => 3,
        TestId::Logger => 4,
        TestId::Hexdump => 5,
        TestId::Boxed => 6,
        TestId::Heap => 7,
    }
}

/// The test a token names, if any.
pub open spec fn token_test(s: Seq<char>) -> Option<TestId> {
    if s == "task"@ {
        Some(TestId::Task)
    } else if s == "task-irq"@ {
        Some(TestId::TaskIrq)
    } else if s == "task-nest"@ {
        Some(TestId::TaskNest)
    } else if s == "task-obj"@ {
        Some(TestId::TaskObj)
    } else if s == "logger"@ {
        Some(TestId::Logger)
    } else if s == "hexdump"@ {
        Some(TestId::Hexdump)
    } else if s == "box"@ {
        Some(TestId::Boxed)
    } else if s == "heap"@ {
        Some(TestId::Heap)
    } else {
        None
    }
}

/// How the accumulation ends: with a mask to run, with the usage printed,
/// or aborted by the first unrecognized token.
pub enum TestScan {
    RunMask(u32),
    ShowHelp,
    Unknown(Seq<char>),
}

/// Folds the tokens left to right: `help` and an unknown token end the
/// scan at once; `all` and test names turn their bits on.
pub open spec fn scan_tokens(toks: Seq<Seq<char>>) -> TestScan
    decreases toks.len(),
{
    if toks.len() == 0 {
        TestScan::RunMask(0)
    } else if toks[0] == "help"@ {
        TestScan::ShowHelp
    } else if toks[0] == "all"@ {
        match scan_tokens(toks.skip(1)) {
            TestScan::RunMask(m) => TestScan::RunMask(m | 0xFF),
            o => o,
        }
    } else {
        match token_test(toks[0]) {
            Some(t) => match scan_tokens(toks.skip(1)) {
                TestScan::RunMask(m) => TestScan::RunMask(m | test_bit(t)),
                o => o,
            },
            None => TestScan::Unknown(toks[0]),
        }
    }
}

/// The selected tests in the order they will run.
pub open spec fn plan_from(m: u32, i: int) -> Seq<TestId>
    decreases 8 - i,
{
    if i < 0 || i >= 8 {
        Seq::empty()
    } else if m & test_bit(test_order()[i]) != 0 {
        seq![test_order()[i]] + plan_from(m, i + 1)
    } else {
        plan_from(m, i + 1)
    }
}

pub open spec fn run_plan(m: u32) -> Seq<TestId> {
    plan_from(m, 0)
}

/// How many times `t` appears in `s`.
pub open spec fn occurrences(s: Seq<TestId>, t: TestId) -> int
    decreases s.len(),
{
    if s.len() == 0 {
        0
    } else {
        (if s[0] == t {
            1int
        } else {
            0int
        }) + occurrences(s.skip(1), t)
    }
}

/// Two bits overlap exactly when they belong to the same test.
proof fn lemma_bit_overlap(t1: TestId, t2: TestId)
    ensures
        (test_bit(t1) & test_bit(t2) != 0) <==> t1 == t2,
{
    let x: u32 = test_bit(t1);
    assert(x & x == x) by (bit_vector);
    assert(0x01u32 & 0x02u32 == 0) by (bit_vector);
    assert(0x01u32 & 0x04u32 == 0) by (bit_vector);
    assert(0x01u32 & 0x08u32 == 0) by (bit_vector);
    assert(0x01u32 & 0x10u32 == 0) by (bit_vector);
    assert(0x01u32 & 0x20u32 == 0) by (bit_vector);
    assert(0x01u32 & 0x40u32 == 0) by (bit_vector);
    assert(0x01u32 & 0x80u32 == 0) by (bit_vector);
    assert(0x02u32 & 0x04u32 == 0) by (bit_vector);
    assert(0x02u32 & 0x08u32 == 0) by (bit_vector);
    assert(0x02u32 & 0x10u32 == 0) by (bit_vector);
    assert(0x02u32 & 0x20u32 == 0) by (bit_vector);
    assert(0x02u32 & 0x40u32 == 0) by (bit_vector);
    assert(0x02u32 & 0x80u32 == 0) by (bit_vector);
    assert(0x04u32 & 0x08u32 == 0) by (bit_vector);
    assert(0x04u32 & 0x10u32 == 0) by (bit_vector);
    assert(0x04u32 & 0x20u32 == 0) by (bit_vector);
    assert(0x04u32 & 0x40u32 == 0) by (bit_vector);
    assert(0x04u32 & 0x80u32 == 0) by (bit_vector);
    assert(0x08u32 & 0x10u32 == 0) by (bit_vector);
    assert(0x08u32 & 0x20u32 == 0) by (bit_vector);
    assert(0x08u32 & 0x40u32 == 0) by (bit_vector);
    assert(0x08u32 & 0x80u32 == 0) by (bit_vector);
    assert(0x10u32 & 0x20u32 == 0) by (bit_vector);
    assert(0x10u32 & 0x40u32 == 0) by (bit_vector);
    assert(0x10u32 & 0x80u32 == 0) by (bit_vector);
    assert(0x20u32 & 0x40u32 == 0) by (bit_vector);
    assert(0x20u32 & 0x80u32 == 0) by (bit_vector);
    assert(0x40u32 & 0x80u32 == 0) by (bit_vector);
    let a: u32 = test_bit(t1);
    let b: u32 = test_bit(t2);
    assert(a & b == b & a) by (bit_vector);
}

/// `all`'s mask covers every test's bit.
proof fn lemma_bit_in_all(t: TestId)
    ensures
        0xFFu32 & test_bit(t) != 0,
{
    assert(0xFFu32 & 0x01u32 != 0) by (bit_vector);
    assert(0xFFu32 & 0x02u32 != 0) by (bit_vector);
    assert(0xFFu32 & 0x04u32 != 0) by (bit_vector);
    assert(0xFFu32 & 0x08u32 != 0) by (bit_vector);
    assert(0xFFu32 & 0x10u32 != 0) by (bit_vector);
    assert(0xFFu32 & 0x20u32 != 0) by (bit_vector);
    assert(0xFFu32 & 0x40u32 != 0) by (bit_vector);
    assert(0xFFu32 & 0x80u32 != 0) by (bit_vector);
}

/// A union's bit is set exactly when one side's is.
proof fn lemma_or_bit(a: u32, b: u32, c: u32)
    ensures
        ((a | b) & c != 0) <==> (a & c != 0) || (b & c != 0),
{
    assert(((a | b) & c != 0) == ((a & c != 0) || (b & c != 0))) by (bit_vector);
}

/// Every self-test's bit is set in a scanned mask exactly when some token
/// asked for it — by name, or through `all`. Which tests run therefore
/// depends only on which tokens were given, never on their order.
pub proof fn lemma_scan_selects(toks: Seq<Seq<char>>, m: u32, t: TestId)
    requires
        scan_tokens(toks) == TestScan::RunMask(m),
    ensures
        (m & test_bit(t) != 0) <==> (toks.contains("all"@) || toks.contains(test_name(t))),
    decreases toks.len(),
{
    let b = test_bit(t);
    if toks.len() == 0 {
        assert(0u32 & b == 0) by (bit_vector);
        assert(!toks.contains("all"@));
        assert(!toks.contains(test_name(t)));
    } else {
        let rest = toks.skip(1);
        assert(forall|x: Seq<char>|
            toks.contains(x) <==> toks[0] == x || rest.contains(x)) by {
            assert(forall|x: Seq<char>| #[trigger] rest.contains(x) ==> toks.contains(x));
            assert forall|x: Seq<char>| #[trigger] toks.contains(x) implies toks[0] == x
                || rest.contains(x) by {
                let i = choose|i: int| 0 <= i < toks.len() && toks[i] == x;
                if i > 0 {
                    assert(rest[i - 1] == x);
                }
            }
            assert(forall|x: Seq<char>| toks[0] == x ==> toks.contains(x));
        }
        if toks[0] == "all"@ {
            let m2: u32 = scan_tokens(rest)->RunMask_0;
            lemma_scan_selects(rest, m2, t);
            lemma_or_bit(m2, 0xFF, b);
            lemma_bit_in_all(t);
        } else if token_test(toks[0]) is Some {
            let t0 = token_test(toks[0])->Some_0;
            let m2: u32 = scan_tokens(rest)->RunMask_0;
            lemma_scan_selects(rest, m2, t);
            lemma_or_bit(m2, test_bit(t0), b);
            lemma_bit_overlap(t0, t);
            lemma_token_names(t0, t);
        }
    }
}

/// Distinct tests have distinct selection tokens.
proof fn lemma_token_names(t0: TestId, t: TestId)
    ensures
        token_test(test_name(t)) == Some(t),
        t0 != t ==> test_name(t0) != test_name(t),
{
    reveal_strlit("task");
    reveal_strlit("task-irq");
    reveal_strlit("task-nest");
    reveal_strlit("task-obj");
    reveal_strlit("logger");
    reveal_strlit("hexdump");
    reveal_strlit("box");
    reveal_strlit("heap");
    assert("task"@.len() == 4);
    assert("task-irq"@.len() == 8);
    assert("task-nest"@.len() == 9);
    assert("task-obj"@.len() == 8);
    assert("logger"@.len() == 6);
    assert("hexdump"@.len() == 7);
    assert("box"@.len() == 3);
    assert("heap"@.len() == 4);
    assert("task"@[0] != "heap"@[0]);
    assert("task-irq"@[5] != "task-obj"@[5]);
    assert("box"@[0] != "logger"@[0]);
}

/// A scanned mask only ever holds the eight known bits.
proof fn lemma_scan_confined(toks: Seq<Seq<char>>, m: u32)
    requires
        scan_tokens(toks) == TestScan::RunMask(m),
    ensures
        m & 0xFFFF_FF00u32 == 0,
    decreases toks.len(),
{
    if toks.len() == 0 {
        assert(0u32 & 0xFFFF_FF00u32 == 0) by (bit_vector);
    } else {
        let rest = toks.skip(1);
        if toks[0] == "all"@ {
            let m2: u32 = scan_tokens(rest)->RunMask_0;
            lemma_scan_confined(rest, m2);
            assert(m2 & 0xFFFF_FF00u32 == 0 ==> (m2 | 0xFFu32) & 0xFFFF_FF00u32 == 0)
                by (bit_vector);
        } else if token_test(toks[0]) is Some {
            let t0 = token_test(toks[0])->Some_0;
            let m2: u32 = scan_tokens(rest)->RunMask_0;
            let b: u32 = test_bit(t0);
            lemma_scan_confined(rest, m2);
            assert(b == 1 || b == 2 || b == 4 || b == 8 || b == 16 || b == 32 || b == 64 || b
                == 128);
            assert((m2 & 0xFFFF_FF00u32 == 0 && (b == 1 || b == 2 || b == 4 || b == 8 || b == 16
                || b == 32 || b == 64 || b == 128)) ==> (m2 | b) & 0xFFFF_FF00u32 == 0)
                by (bit_vector);
        }
    }
}

/// Token lists that ask for the same set of things scan to the same mask:
/// the order and multiplicity of the tokens never matter.
pub proof fn lemma_scan_order_irrelevant(t1: Seq<Seq<char>>, t2: Seq<Seq<char>>, m1: u32, m2: u32)
    requires
        scan_tokens(t1) == TestScan::RunMask(m1),
        scan_tokens(t2) == TestScan::RunMask(m2),
        t1.contains("all"@) <==> t2.contains("all"@),
        forall|t: TestId|
            t1.contains(#[trigger] test_name(t)) <==> t2.contains(test_name(t)),
    ensures
        m1 == m2,
{
    lemma_scan_confined(t1, m1);
    lemma_scan_confined(t2, m2);
    lemma_scan_selects(t1, m1, TestId::Task);
    lemma_scan_selects(t2, m2, TestId::Task);
    lemma_scan_selects(t1, m1, TestId::TaskIrq);
    lemma_scan_selects(t2, m2, TestId::TaskIrq);
    lemma_scan_selects(t1, m1, TestId::TaskNest);
    lemma_scan_selects(t2, m2, TestId::TaskNest);
    lemma_scan_selects(t1, m1, TestId::TaskObj);
    lemma_scan_selects(t2, m2, TestId::TaskObj);
    lemma_scan_selects(t1, m1, TestId::Logger);
    lemma_scan_selects(t2, m2, TestId::Logger);
    lemma_scan_selects(t1, m1, TestId::Hexdump);
    lemma_scan_selects(t2, m2, TestId::Hexdump);
    lemma_scan_selects(t1, m1, TestId::Boxed);
    lemma_scan_selects(t2, m2, TestId::Boxed);
    lemma_scan_selects(t1, m1, TestId::Heap);
    lemma_scan_selects(t2, m2, TestId::Heap);
    assert(m1 == m2) by (bit_vector)
        requires
            m1 & 0xFFFF_FF00u32 == 0,
            m2 & 0xFFFF_FF00u32 == 0,
            (m1 & 0x01u32 != 0) == (m2 & 0x01u32 != 0),
            (m1 & 0x02u32 != 0) == (m2 & 0x02u32 != 0),
            (m1 & 0x04u32 != 0) == (m2 & 0x04u32 != 0),
            (m1 & 0x08u32 != 0) == (m2 & 0x08u32 != 0),
            (m1 & 0x10u32 != 0) == (m2 & 0x10u32 != 0),
            (m1 & 0x20u32 != 0) == (m2 & 0x20u32 != 0),
            (m1 & 0x40u32 != 0) == (m2 & 0x40u32 != 0),
            (m1 & 0x80u32 != 0) == (m2 & 0x80u32 != 0),
    ;
}

proof fn lemma_plan_from_occurrences(m: u32, i: int, t: TestId)
    requires
        0 <= i <= 8,
    ensures
        occurrences(plan_from(m, i), t) == if m & test_bit(t) != 0 && order_index(t) >= i {
            1int
        } else {
            0int
        },
    decreases 8 - i,
{
    if i < 8 {
        lemma_plan_from_occurrences(m, i + 1, t);
        let h = test_order()[i];
        assert(order_index(h) == i);
        if m & test_bit(h) != 0 {
            let p = seq![h] + plan_from(m, i + 1);
            assert(p[0] == h);
            assert(p.skip(1) =~= plan_from(m, i + 1));
            if h == t {
                assert(order_index(t) == i);
            } else {
                assert(order_index(t) != i);
            }
        } else {
            if h == t {
                assert(order_index(t) == i);
            } else {
                assert(order_index(t) != i);
            }
        }
    }
}

/// Every selected test runs exactly once; an unselected one never runs.
pub proof fn lemma_plan_exactly_once(m: u32, t: TestId)
    ensures
        occurrences(run_plan(m), t) == if m & test_bit(t) != 0 {
            1int
        } else {
            0int
        },
{
    lemma_plan_from_occurrences(m, 0, t);
    assert(order_index(t) >= 0);
    assert(run_plan(m) == plan_from(m, 0));
    assert(occurrences(plan_from(m, 0), t) == if m & test_bit(t) != 0 && order_index(t) >= 0 {
        1int
    } else {
        0int
    });
}

proof fn lemma_plan_from_min(m: u32, i: int)
    requires
        0 <= i <= 8,
    ensures
        forall|k: int|
            0 <= k < plan_from(m, i).len() ==> order_index(#[trigger] plan_from(m, i)[k]) >= i,
    decreases 8 - i,
{
    if i < 8 {
        lemma_plan_from_min(m, i + 1);
        let h = test_order()[i];
        if m & test_bit(h) != 0 {
            let p = seq![h] + plan_from(m, i + 1);
            assert(plan_from(m, i) == p);
            assert forall|k: int|
                0 <= k < plan_from(m, i).len() implies order_index(
                #[trigger] plan_from(m, i)[k]) >= i by {
                if k > 0 {
                    assert(p[k] == plan_from(m, i + 1)[k - 1]);
                }
            }
        } else {
            assert forall|k: int|
                0 <= k < plan_from(m, i).len() implies order_index(
                #[trigger] plan_from(m, i)[k]) >= i by {
                assert(plan_from(m, i)[k] == plan_from(m, i + 1)[k]);
            }
        }
    }
}

proof fn lemma_plan_from_sorted(m: u32, i: int)
    requires
        0 <= i <= 8,
    ensures
        forall|a: int, b: int|
            0 <= a < b < plan_from(m, i).len() ==> order_index(#[trigger] plan_from(m, i)[a])
                < order_index(#[trigger] plan_from(m, i)[b]),
    decreases 8 - i,
{
    if i < 8 {
        lemma_plan_from_sorted(m, i + 1);
        lemma_plan_from_min(m, i + 1);
        let h = test_order()[i];
        if m & test_bit(h) != 0 {
            let p = seq![h] + plan_from(m, i + 1);
            assert(plan_from(m, i) == p);
            assert forall|a: int, b: int|
                0 <= a < b < plan_from(m, i).len() implies order_index(
                #[trigger] plan_from(m, i)[a]) < order_index(#[trigger] plan_from(m, i)[b]) by {
                assert(p[b] == plan_from(m, i + 1)[b - 1]);
                if a == 0 {
                    assert(order_index(p[0]) == i);
                    assert(order_index(plan_from(m, i + 1)[b - 1]) >= i + 1);
                } else {
                    assert(p[a] == plan_from(m, i + 1)[a - 1]);
                }
            }
        } else {
            assert forall|a: int, b: int|
                0 <= a < b < plan_from(m, i).len() implies order_index(
                #[trigger] plan_from(m, i)[a]) < order_index(#[trigger] plan_from(m, i)[b]) by {
                assert(plan_from(m, i)[a] == plan_from(m, i + 1)[a]);
                assert(plan_from(m, i)[b] == plan_from(m, i + 1)[b]);
            }
        }
    }
}

/// The selected tests run in the fixed declared order, whatever order
/// they were requested in.
pub proof fn lemma_plan_fixed_order(m: u32)
    ensures
        forall|a: int, b: int|
            0 <= a < b < run_plan(m).len() ==> order_index(#[trigger] run_plan(m)[a])
                < order_index(#[trigger] run_plan(m)[b]),
{
    lemma_plan_from_sorted(m, 0);
}

/// `test all` runs the full fixed order, each test exactly once.
pub proof fn lemma_all_runs_everything(t: TestId)
    ensures
        0xFFu32 & test_bit(t) != 0,
        occurrences(run_plan(0xFF), t) == 1,
{
    lemma_bit_in_all(t);
    lemma_plan_exactly_once(0xFF, t);
}

/// The usage line `test help` (and a rejected token) prints.
pub open spec fn test_usage_line() -> Seq<char> {
    "test [help|all|task|task-irq|task-nest|task-obj|logger|hexdump|box|heap]"@
}

/// The trace line announcing one test.
pub open spec fn running_text(t: TestId) -> Seq<char> {
    "Running Test::"@ + test_label(t)
}

/// What one self-test run guarantees, test by test.
pub open spec fn selftest_post(t: TestId, pre: Runtime, post: Runtime) -> bool {
    match t {
        TestId::Task => console_appended(pre, post, seq!["task test done"@]),
        TestId::TaskIrq => console_appended(pre, post, seq!["task-irq test done"@]),
        TestId::TaskNest => console_appended(pre, post, seq!["task-nest test done"@]),
        TestId::TaskObj => crate::selftest::task_obj_post(pre, post),
        TestId::Logger => console_appended(
            pre,
            post,
            crate::selftest::logger_test_lines(pre.meta()),
        ),
        TestId::Hexdump => console_appended(pre, post, crate::selftest::hexdump_lines()),
        TestId::Boxed => console_appended(pre, post, crate::selftest::box_test_lines()),
        TestId::Heap => {
            &&& crate::cmd::frame_but_store_heap(pre, post)
            &&& post.heap.view_blocks() == pre.heap.view_blocks()
            &&& crate::runtime::store_console_appended(
                pre.store,
                post.store,
                crate::selftest::heap_test_lines(pre.heap.view_blocks()),
            )
        },
    }
}

/// One harness step: the trace line, then the test itself.
pub open spec fn step_post(pre: Runtime, post: Runtime, t: TestId) -> bool {
    exists|mid: Runtime|
        #[trigger] logged(pre, mid, "test"@, Severity::Trace, 0, running_text(t))
            && selftest_post(t, mid, post)
}

/// The selected tests from position `i` of the fixed order on, run in
/// order, each preceded by its trace line.
pub open spec fn tests_post(pre: Runtime, post: Runtime, m: u32, i: int) -> bool
    decreases 8 - i,
{
    if i < 0 || i >= 8 {
        crate::runtime::unchanged(pre, post)
    } else if m & test_bit(test_order()[i]) != 0 {
        exists|mid: Runtime|
            #[trigger] step_post(pre, mid, test_order()[i]) && tests_post(mid, post, m, i + 1)
    } else {
        tests_post(pre, post, m, i + 1)
    }
}

/// What the whole `test` command guarantees: the usage for `help`, a
/// report and failing status for an unknown token with nothing run, and
/// otherwise the selected tests in the fixed order.
pub open spec fn test_post(pre: Runtime, post: Runtime, args: Seq<Seq<char>>, status: i8) -> bool {
    match scan_tokens(args) {
        TestScan::ShowHelp => status == 0 && console_appended(pre, post, seq![test_usage_line()]),
        TestScan::Unknown(tok) => status == 1 && console_appended(
            pre,
            post,
            seq!["Unknown subcommand: "@ + tok, test_usage_line()],
        ),
        TestScan::RunMask(m) => status == 0 && tests_post(pre, post, m, 0),
    }
}

fn test_label_str(t: TestId) -> (s: &'static str)
    ensures
        s@ == test_label(t),
{
    match t {
        TestId::Task => "Task",
        TestId::TaskIrq => "TaskIrq",
        TestId::TaskNest => "TaskNest",
        TestId::TaskObj => "TaskObj",
        TestId::Logger => "Logger",
        TestId::Hexdump => "Hexdump",
        TestId::Boxed => "Box",
        TestId::Heap => "Heap",
    }
}

fn token_test_exec(tok: &str) -> (r: Option<TestId>)
    ensures
        r == token_test(tok@),
{
    if crate::text::str_eq(tok, "task") {
        Some(TestId::Task)
    } else if crate::text::str_eq(tok, "task-irq") {
        Some(TestId::TaskIrq)
    } else if crate::text::str_eq(tok, "task-nest") {
        Some(TestId::TaskNest)
    } else if crate::text::str_eq(tok, "task-obj") {
        Some(TestId::TaskObj)
    } else if crate::text::str_eq(tok, "logger") {
        Some(TestId::Logger)
    } else if crate::text::str_eq(tok, "hexdump") {
        Some(TestId::Hexdump)
    } else if crate::text::str_eq(tok, "box") {
        Some(TestId::Boxed)
    } else if crate::text::str_eq(tok, "heap") {
        Some(TestId::Heap)
    } else {
        None
    }
}

fn test_bit_exec(t: TestId) -> (b: u32)
    ensures
        b == test_bit(t),
{
    match t {
        TestId::Task => 0x01,
        TestId::TaskIrq => 0x02,
        TestId::TaskNest => 0x04,
        TestId::TaskObj => 0x08,
        TestId::Logger => 0x10,
        TestId::Hexdump => 0x20,
        TestId::Boxed => 0x40,
        TestId::Heap => 0x80,
    }
}

fn test_at(i: usize) -> (t: TestId)
    requires
        i < 8,
    ensures
        t == test_order()[i as int],
{
    match i {
        0 => TestId::Task,
        1 => TestId::TaskIrq,
        2 => TestId::TaskNest,
        3 => TestId::TaskObj,
        4 => TestId::Logger,
        5 => TestId::Hexdump,
        6 => TestId::Boxed,
        _ => TestId::Heap,
    }
}

/// Runs one self-test.
fn run_one(rt: &mut Runtime, t: TestId)
    requires
        old(rt).ready(),
    ensures
        final(rt).ready(),
        selftest_post(t, *old(rt), *final(rt)),
{
    match t {
        TestId::Task => crate::selftest::test_tasks(rt),
        TestId::TaskIrq => crate::selftest::test_irq_tasks(rt),
        TestId::TaskNest => crate::selftest::test_nested_tasks(rt),
        TestId::TaskObj => crate::selftest::test_task_object(rt),
        TestId::Logger => crate::selftest::test_logger(rt),
        TestId::Hexdump => crate::selftest::test_hexdump(rt),
        TestId::Boxed => crate::selftest::test_box(rt),
        TestId::Heap => crate::selftest::test_heap(rt),
    }
}

/// Runs the selected tests from position `i` on, in the fixed order.
fn run_tests(rt: &mut Runtime, mask: u32, i: usize)
    requires
        old(rt).ready(),
        i <= 8,
    ensures
        final(rt).ready(),
        tests_post(*old(rt), *final(rt), mask, i as int),
    decreases 8 - i,
{
    if i == 8 {
        return;
    }
    let t = test_at(i);
    let b = test_bit_exec(t);
    if mask & b != 0 {
        let ghost a = *rt;
        let label = test_label_str(t);
        let mut text = String::new();
        text.append("Running Test::");
        text.append(label);
        log_line(rt, "test", Severity::Trace, 0, text.as_str());
        let ghost mid = *rt;
        run_one(rt, t);
        let ghost c = *rt;
        proof {
            assert(logged(a, mid, "test"@, Severity::Trace, 0, running_text(t)));
            assert(step_post(a, c, test_order()[i as int]));
        }
        run_tests(rt, mask, i + 1);
        proof {
            assert(tests_post(c, *rt, mask, i as int + 1));
            assert(tests_post(a, *rt, mask, i as int));
        }
    } else {
        run_tests(rt, mask, i + 1);
    }
}

/// Merging an accumulated mask into a scan outcome.
pub open spec fn merge_scan(m: u32, s: TestScan) -> TestScan {
    match s {
        TestScan::RunMask(m2) => TestScan::RunMask(m | m2),
        o => o,
    }
}

/// `test [help|all|<name>...]`: accumulates the request mask and runs
/// the selected self-tests in the fixed order. An unknown token aborts
/// the accumulation before anything runs.
pub fn cmd_test(rt: &mut Runtime, args: &Vec<String>) -> (status: i8)
    requires
        old(rt).ready(),
    ensures
        final(rt).ready(),
        test_post(*old(rt), *final(rt), args.deep_view(), status),
{
    let ghost dv = args.deep_view();
    let ghost pre = *rt;
    let mut mask: u32 = 0;
    let n = args.len();
    let mut i: usize = 0;
    proof {
        assert(dv.skip(0) =~= dv);
        let s = scan_tokens(dv);
        match s {
            TestScan::RunMask(m2) => {
                assert(0u32 | m2 == m2) by (bit_vector);
            }
            _ => {}
        }
    }
    while i < n
        invariant_except_break
            i <= n,
            n == args@.len(),
            dv == args.deep_view(),
            *rt == pre,
            pre == *old(rt),
            rt.ready(),
            scan_tokens(dv) == merge_scan(mask, scan_tokens(dv.skip(i as int))),
        ensures
            i <= n,
            dv == args.deep_view(),
            n == args@.len(),
            *rt == pre,
            pre == *old(rt),
            rt.ready(),
            scan_tokens(dv) == merge_scan(mask, scan_tokens(dv.skip(i as int))),
            i == n || scan_tokens(dv) == TestScan::ShowHelp,
        decreases n - i,
    {
        let ghost sub = dv.skip(i as int);
        proof {
            assert(args@[i as int]@ == dv[i as int]);
            assert(sub[0] == dv[i as int]);
            assert(sub.skip(1) =~= dv.skip(i as int + 1));
        }
        if crate::text::str_eq(args[i].as_str(), "help") {
            break;
        }
        if crate::text::str_eq(args[i].as_str(), "all") {
            proof {
                match scan_tokens(dv.skip(i as int + 1)) {
                    TestScan::RunMask(m2) => {
                        let m0 = mask;
                        assert(m0 | (m2 | 0xFFu32) == (m0 | 0xFFu32) | m2) by (bit_vector);
                    }
                    _ => {}
                }
            }
            mask = mask | 0xFF;
            i = i + 1;
            continue;
        }
        let found = token_test_exec(args[i].as_str());
        match found {
            Some(t) => {
                let b = test_bit_exec(t);
                proof {
                    reveal_strlit("help");
                    reveal_strlit("all");
                    assert(token_test(sub[0]) is Some);
                    assert(sub[0] != "help"@ && sub[0] != "all"@) by {
                        lemma_named_tokens_not_keywords(t);
                    }
                    match scan_tokens(dv.skip(i as int + 1)) {
                        TestScan::RunMask(m2) => {
                            let m0 = mask;
                            assert(m0 | (m2 | b) == (m0 | b) | m2) by (bit_vector);
                        }
                        _ => {}
                    }
                }
                mask = mask | b;
                i = i + 1;
            }
            None => {
                let mut msg = String::new();
                msg.append("Unknown subcommand: ");
                msg.append(args[i].as_str());
                let ghost a = *rt;
                print_str(rt, msg.as_str());
                let ghost b2 = *rt;
                print_str(
                    rt,
                    "test [help|all|task|task-irq|task-nest|task-obj|logger|hexdump|box|heap]",
                );
                proof {
                    assert(scan_tokens(sub) == TestScan::Unknown(sub[0]));
                    lemma_console_appended_trans(
                        a,
                        b2,
                        *rt,
                        seq![msg@],
                        seq![test_usage_line()],
                    );
                    assert(seq![msg@] + seq![test_usage_line()] =~= seq![
                        "Unknown subcommand: "@ + sub[0],
                        test_usage_line(),
                    ]);
                }
                return 1;
            }
        }
    }
    if i < n {
        print_str(
            rt,
            "test [help|all|task|task-irq|task-nest|task-obj|logger|hexdump|box|heap]",
        );
        return 0;
    }
    proof {
        assert(dv.skip(n as int) =~= Seq::<Seq<char>>::empty());
        match scan_tokens(dv) {
            TestScan::RunMask(m2) => {
                let m0 = mask;
                assert(m0 | 0u32 == m0) by (bit_vector);
            }
            _ => {}
        }
    }
    run_tests(rt, mask, 0);
    0
}

/// A token that names a test is neither `help` nor `all`.
proof fn lemma_named_tokens_not_keywords(t: TestId)
    ensures
        test_name(t) != "help"@,
        test_name(t) != "all"@,
{
    reveal_strlit("help");
    reveal_strlit("all");
    reveal_strlit("task");
    reveal_strlit("task-irq");
    reveal_strlit("task-nest");
    reveal_strlit("task-obj");
    reveal_strlit("logger");
    reveal_strlit("hexdump");
    reveal_strlit("box");
    reveal_strlit("heap");
    assert("help"@.len() == 4);
    assert("all"@.len() == 3);
    assert("task"@.len() == 4);
    assert("task-irq"@.len() == 8);
    assert("task-nest"@.len() == 9);
    assert("task-obj"@.len() == 8);
    assert("logger"@.len() == 6);
    assert("hexdump"@.len() == 7);
    assert("box"@.len() == 3);
    assert("heap"@.len() == 4);
    assert("task"@[0] != "help"@[0]);
    assert("heap"@[2] != "help"@[2]);
    assert("box"@[0] != "all"@[0]);
}

} // verus!
