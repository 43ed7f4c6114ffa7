//! The self-tests the `test` shell command can run, and the two small
//! demonstration objects they park in the object store. The cooperative
//! task scheduler itself is a board-side collaborator, so the task tests
//! here only walk the harness path and report; the object, logger and
//! heap tests exercise the real components.

use vstd::prelude::*;

use crate::cmd::alloc_line;
use crate::cmd::dump_lines;
use crate::cmd::frame_but_store_heap;
use crate::cmd::join_spaces;
use crate::log::Severity;
use crate::object::EntryModel;
use crate::object::ObjectKind;
use crate::object::ObjectStore;
use crate::object::ObjectValue;
use crate::runtime::console_appended;
use crate::runtime::console_key;
use crate::runtime::frame_but_store;
use crate::runtime::lemma_console_appended_refl;
use crate::runtime::lemma_console_appended_trans;
use crate::runtime::lemma_store_console_appended_trans;
use crate::runtime::lemma_unchanged_is_empty_append;
use crate::runtime::log_line;
use crate::runtime::log_line_text;
use crate::runtime::passes;
use crate::runtime::print_line;
use crate::runtime::print_str;
use crate::runtime::store_console_appended;
use crate::runtime::Runtime;
use crate::text::dec_chars;
use crate::text::hex_pair;
use crate::time::TimeProvider;

verus! {

/// A demonstration object with an identity and a voice.
pub struct ChildObject1 {
    id: usize,
}

impl ChildObject1 {
    pub closed spec fn id(self) -> usize {
        self.id
    }

    pub fn new(id: usize) -> (o: ChildObject1)
        ensures
            o.id() == id,
    {
        ChildObject1 { id }
    }

    /// The line this object prints when poked.
    pub fn beep(&self) -> (line: String)
        ensures
            line@ == "ChildObject1::beep "@ + dec_chars(self.id() as nat),
    {
        let mut line = String::new();
        line.append("ChildObject1::beep ");
        let id_str = crate::text::fmt_dec(self.id as u64);
        line.append(id_str.as_str());
        line
    }
}

/// A polled countdown task kept in the object store: each poll brings it
/// one step closer to completion, and a completed task reports result 0.
pub struct CounterTask {
    remaining: u32,
}

impl CounterTask {
    pub closed spec fn remaining(self) -> u32 {
        self.remaining
    }

    pub fn new(steps: u32) -> (t: CounterTask)
        ensures
            t.remaining() == steps,
    {
        CounterTask { remaining: steps }
    }

    /// One scheduling step: `None` while work remains, `Some(0)` once done.
    pub fn poll(&mut self) -> (r: Option<u8>)
        ensures
            if old(self).remaining() == 0 {
                r == Some(0u8) && final(self).remaining() == 0
            } else {
                r == None::<u8> && final(self).remaining() == old(self).remaining() - 1
            },
    {
        if self.remaining == 0 {
            Some(0)
        } else {
            self.remaining = self.remaining - 1;
            None
        }
    }
}

/// The log line a message yields, or nothing when the filter mutes it.
pub open spec fn maybe_log(
    m: crate::log::ModuleMetaManager,
    sev: Severity,
    lvl: u8,
    text: Seq<char>,
) -> Seq<Seq<char>> {
    if passes(m, "test"@, sev, lvl) {
        seq![log_line_text("test"@, sev, text)]
    } else {
        Seq::empty()
    }
}

/// Everything the logger smoke test prints, given the metadata in force.
pub open spec fn logger_test_lines(m: crate::log::ModuleMetaManager) -> Seq<Seq<char>> {
    maybe_log(m, Severity::Trace, 1, "Test trace"@) + maybe_log(m, Severity::Info, 0, "Test info 1"@)
        + maybe_log(m, Severity::Warn, 0, "Test warn"@) + maybe_log(
        m,
        Severity::Error,
        0,
        "Test error 42"@,
    ) + maybe_log(m, Severity::Fatal, 0, "Test fatal"@)
}

/// The task-scheduling smoke tests: the scheduler runs on the board, so
/// they only walk the harness path and report.
pub fn test_tasks(rt: &mut Runtime)
    requires
        old(rt).ready(),
    ensures
        final(rt).ready(),
        console_appended(*old(rt), *final(rt), seq!["task test done"@]),
{
    print_str(rt, "task test done");
}

pub fn test_irq_tasks(rt: &mut Runtime)
    requires
        old(rt).ready(),
    ensures
        final(rt).ready(),
        console_appended(*old(rt), *final(rt), seq!["task-irq test done"@]),
{
    print_str(rt, "task-irq test done");
}

pub fn test_nested_tasks(rt: &mut Runtime)
    requires
        old(rt).ready(),
    ensures
        final(rt).ready(),
        console_appended(*old(rt), *final(rt), seq!["task-nest test done"@]),
{
    print_str(rt, "task-nest test done");
}

/// The logger smoke test: one message per severity through the filter.
pub fn test_logger(rt: &mut Runtime)
    requires
        old(rt).ready(),
    ensures
        final(rt).ready(),
        console_appended(*old(rt), *final(rt), logger_test_lines(old(rt).meta())),
{
    let ghost pre = *rt;
    let ghost m = pre.meta();
    proof {
        crate::runtime::lemma_keys_distinct();
    }
    let ghost s0 = *rt;
    log_line(rt, "test", Severity::Trace, 1, "Test trace");
    let ghost s1 = *rt;
    proof {
        lemma_log_step(s0, s1, Severity::Trace, 1, "Test trace"@);
        assert(s1.meta() == m);
    }
    log_line(rt, "test", Severity::Info, 0, "Test info 1");
    let ghost s2 = *rt;
    proof {
        lemma_log_step(s1, s2, Severity::Info, 0, "Test info 1"@);
        assert(s2.meta() == m);
        lemma_console_appended_trans(
            s0,
            s1,
            s2,
            maybe_log(m, Severity::Trace, 1, "Test trace"@),
            maybe_log(m, Severity::Info, 0, "Test info 1"@),
        );
    }
    log_line(rt, "test", Severity::Warn, 0, "Test warn");
    let ghost s3 = *rt;
    proof {
        lemma_log_step(s2, s3, Severity::Warn, 0, "Test warn"@);
        assert(s3.meta() == m);
        lemma_console_appended_trans(
            s0,
            s2,
            s3,
            maybe_log(m, Severity::Trace, 1, "Test trace"@) + maybe_log(
                m,
                Severity::Info,
                0,
                "Test info 1"@,
            ),
            maybe_log(m, Severity::Warn, 0, "Test warn"@),
        );
    }
    log_line(rt, "test", Severity::Error, 0, "Test error 42");
    let ghost s4 = *rt;
    proof {
        lemma_log_step(s3, s4, Severity::Error, 0, "Test error 42"@);
        assert(s4.meta() == m);
        lemma_console_appended_trans(
            s0,
            s3,
            s4,
            maybe_log(m, Severity::Trace, 1, "Test trace"@) + maybe_log(
                m,
                Severity::Info,
                0,
                "Test info 1"@,
            ) + maybe_log(m, Severity::Warn, 0, "Test warn"@),
            maybe_log(m, Severity::Error, 0, "Test error 42"@),
        );
    }
    log_line(rt, "test", Severity::Fatal, 0, "Test fatal");
    proof {
        lemma_log_step(s4, *rt, Severity::Fatal, 0, "Test fatal"@);
        lemma_console_appended_trans(
            s0,
            s4,
            *rt,
            maybe_log(m, Severity::Trace, 1, "Test trace"@) + maybe_log(
                m,
                Severity::Info,
                0,
                "Test info 1"@,
            ) + maybe_log(m, Severity::Warn, 0, "Test warn"@) + maybe_log(
                m,
                Severity::Error,
                0,
                "Test error 42"@,
            ),
            maybe_log(m, Severity::Fatal, 0, "Test fatal"@),
        );
    }
}

/// One logger step appended exactly its `maybe_log` lines, and kept the
/// metadata in place.
proof fn lemma_log_step(a: Runtime, b: Runtime, sev: Severity, lvl: u8, text: Seq<char>)
    requires
        a.ready(),
        crate::runtime::logged(a, b, "test"@, sev, lvl, text),
    ensures
        console_appended(a, b, maybe_log(a.meta(), sev, lvl, text)),
        b.meta() == a.meta(),
        b.tick() == a.tick(),
{
    crate::runtime::lemma_keys_distinct();
    if passes(a.meta(), "test"@, sev, lvl) {
        let ci = a.store.index_of(console_key());
        ObjectStore::lemma_update_keeps_lookups(a.store, b.store, ci, b.store.rows()[ci]);
    } else {
        lemma_unchanged_is_empty_append(a, b);
        assert(b.store.rows() == a.store.rows());
    }
}

/// The bytes the hexdump smoke test renders.
pub open spec fn demo_bytes() -> Seq<u8> {
    seq![0x00u8, 0x01u8, 0x21u8, 0x03u8, 0x63u8, 0x05u8, 0x06u8, 0x61u8, 0xffu8, 0xaau8, 0x55u8]
}

/// Each byte as two hex digits with a trailing space.
pub open spec fn hex_pairs(s: Seq<u8>) -> Seq<char>
    decreases s.len(),
{
    if s.len() == 0 {
        Seq::empty()
    } else {
        hex_pair(s[0]) + " "@ + hex_pairs(s.skip(1))
    }
}

proof fn lemma_hex_pairs_push(s: Seq<u8>, x: u8)
    ensures
        hex_pairs(s.push(x)) == hex_pairs(s) + hex_pair(x) + " "@,
    decreases s.len(),
{
    let p = s.push(x);
    if s.len() == 0 {
        assert(p.len() == 1);
        assert(p[0] == x);
        assert(p.skip(1) =~= Seq::<u8>::empty());
        assert(hex_pairs(p.skip(1)) == Seq::<char>::empty());
        assert(hex_pairs(p) =~= hex_pairs(s) + hex_pair(x) + " "@);
    } else {
        assert(p[0] == s[0]);
        assert(p.skip(1) =~= s.skip(1).push(x));
        lemma_hex_pairs_push(s.skip(1), x);
        assert(hex_pair(s[0]) + " "@ + (hex_pairs(s.skip(1)) + hex_pair(x) + " "@) =~= (hex_pair(
            s[0],
        ) + " "@ + hex_pairs(s.skip(1))) + hex_pair(x) + " "@);
    }
}

/// What the hexdump smoke test prints.
pub open spec fn hexdump_lines() -> Seq<Seq<char>> {
    seq!["Test123"@, "Test 42 69"@, hex_pairs(demo_bytes())]
}

/// The hexdump smoke test: two fixed lines and a hex rendering of a
/// small byte array.
pub fn test_hexdump(rt: &mut Runtime)
    requires
        old(rt).ready(),
    ensures
        final(rt).ready(),
        console_appended(*old(rt), *final(rt), hexdump_lines()),
{
    let ghost pre = *rt;
    let ghost expected = hexdump_lines();
    proof {
        lemma_console_appended_refl(pre);
    }
    print_str(rt, "Test123");
    let ghost s1 = *rt;
    print_str(rt, "Test 42 69");
    let ghost s2 = *rt;
    let mut bytes: Vec<u8> = Vec::new();
    bytes.push(0x00);
    bytes.push(0x01);
    bytes.push(0x21);
    bytes.push(0x03);
    bytes.push(0x63);
    bytes.push(0x05);
    bytes.push(0x06);
    bytes.push(0x61);
    bytes.push(0xff);
    bytes.push(0xaa);
    bytes.push(0x55);
    proof {
        assert(bytes@ =~= demo_bytes());
        assert(demo_bytes().take(0) =~= Seq::<u8>::empty());
    }
    let mut line = String::new();
    let n = bytes.len();
    let mut i: usize = 0;
    while i < n
        invariant
            i <= n,
            n == bytes@.len(),
            bytes@ == demo_bytes(),
            line@ == hex_pairs(bytes@.take(i as int)),
        decreases n - i,
    {
        let pair = crate::text::fmt_hex_byte(bytes[i]);
        line.append(pair.as_str());
        line.append(" ");
        proof {
            assert(bytes@.take(i as int + 1) =~= bytes@.take(i as int).push(bytes@[i as int]));
            lemma_hex_pairs_push(bytes@.take(i as int), bytes@[i as int]);
        }
        i = i + 1;
    }
    proof {
        assert(bytes@.take(n as int) =~= bytes@);
    }
    print_line(rt, line);
    proof {
        lemma_console_appended_trans(pre, s1, s2, seq![expected[0]], seq![expected[1]]);
        assert(seq![expected[0]] + seq![expected[1]] =~= expected.take(2));
        lemma_console_appended_trans(pre, s2, *rt, expected.take(2), seq![expected[2]]);
        assert(expected.take(2) + seq![expected[2]] =~= expected);
    }
}

/// What the box smoke test prints: a demonstration object's voice and two
/// counted providers.
pub open spec fn box_test_lines() -> Seq<Seq<char>> {
    seq![
        "ChildObject1::beep "@ + dec_chars(42),
        "TimeProvider::now "@ + dec_chars(42),
        "TimeProvider::now "@ + dec_chars(69),
    ]
}

/// The box smoke test: heterogeneous objects built, driven and read back.
pub fn test_box(rt: &mut Runtime)
    requires
        old(rt).ready(),
    ensures
        final(rt).ready(),
        console_appended(*old(rt), *final(rt), box_test_lines()),
{
    let ghost pre = *rt;
    let ghost expected = box_test_lines();
    let b = ChildObject1::new(42);
    let beep = b.beep();
    print_line(rt, beep);
    let ghost s1 = *rt;
    let mut tp = TimeProvider::new();
    let mut k: u32 = 0;
    while k < 42
        invariant
            k <= 42,
            tp.tick() == k,
        decreases 42 - k,
    {
        tp.increment();
        k = k + 1;
    }
    let mut line = String::new();
    line.append("TimeProvider::now ");
    let now_str = crate::text::fmt_dec(tp.now() as u64);
    line.append(now_str.as_str());
    print_line(rt, line);
    let ghost s2 = *rt;
    let mut tp2 = TimeProvider::new();
    let mut k2: u32 = 0;
    while k2 < 69
        invariant
            k2 <= 69,
            tp2.tick() == k2,
        decreases 69 - k2,
    {
        tp2.increment();
        k2 = k2 + 1;
    }
    let mut line2 = String::new();
    line2.append("TimeProvider::now ");
    let now_str2 = crate::text::fmt_dec(tp2.now() as u64);
    line2.append(now_str2.as_str());
    print_line(rt, line2);
    proof {
        lemma_console_appended_trans(pre, s1, s2, seq![expected[0]], seq![expected[1]]);
        assert(seq![expected[0]] + seq![expected[1]] =~= expected.take(2));
        lemma_console_appended_trans(pre, s2, *rt, expected.take(2), seq![expected[2]]);
        assert(expected.take(2) + seq![expected[2]] =~= expected);
    }
}

/// The key the task-object smoke test parks its countdown under.
pub open spec fn task_key() -> Seq<char> {
    "task1"@
}

pub proof fn lemma_task_key_distinct()
    ensures
        task_key() != console_key(),
        task_key() != crate::runtime::logger_meta_key(),
        task_key() != crate::runtime::time_key(),
{
    reveal_strlit("task1");
    reveal_strlit("console");
    reveal_strlit("logger_meta");
    reveal_strlit("time");
    assert(task_key().len() == 5);
    assert(console_key().len() == 7);
    assert(crate::runtime::logger_meta_key().len() == 11);
    assert(crate::runtime::time_key().len() == 4);
}

/// Every key in the store, insertion order.
pub open spec fn keys_of(rows: Seq<EntryModel>) -> Seq<Seq<char>> {
    Seq::new(rows.len(), |i: int| rows[i].key)
}

/// The line the object listing prints.
pub open spec fn objects_line(ks: Seq<Seq<char>>) -> Seq<char> {
    "Objects: "@ + join_spaces(ks)
}

/// Prints every object key on one line.
fn print_objects(rt: &mut Runtime)
    requires
        old(rt).ready(),
    ensures
        final(rt).ready(),
        console_appended(*old(rt), *final(rt), seq![objects_line(keys_of(old(rt).store.rows()))]),
{
    let ghost pre = *rt;
    let ghost ks = keys_of(pre.store.rows());
    let keys = rt.store.keys();
    let mut line = String::new();
    line.append("Objects: ");
    let n = keys.len();
    let mut i: usize = 0;
    proof {
        assert(ks.take(0) =~= Seq::<Seq<char>>::empty());
    }
    while i < n
        invariant
            i <= n,
            n == keys@.len(),
            n == ks.len(),
            forall|j: int| 0 <= j < n ==> #[trigger] keys.deep_view()[j] == ks[j],
            line@ == "Objects: "@ + join_spaces(ks.take(i as int)),
        decreases n - i,
    {
        if i > 0 {
            line.append(" ");
        }
        line.append(keys[i].as_str());
        proof {
            assert(keys@[i as int]@ == keys.deep_view()[i as int]);
            assert(ks.take(i as int + 1) =~= ks.take(i as int).push(ks[i as int]));
            crate::cmd::lemma_join_push(ks.take(i as int), ks[i as int]);
        }
        i = i + 1;
    }
    proof {
        assert(ks.take(n as int) =~= ks);
    }
    print_line(rt, line);
}

/// One poll of the stored countdown task, guard taken and returned.
fn poll_task(rt: &mut Runtime) -> (r: Option<u8>)
    requires
        old(rt).store.wf(),
        old(rt).store.contains_key(task_key()),
        !old(rt).store.is_borrowed(task_key()),
        old(rt).store.value_of(task_key()).kind() == ObjectKind::Counter,
    ensures
        final(rt).store.wf(),
        frame_but_store(*old(rt), *final(rt)),
        final(rt).store.rows() == old(rt).store.rows().update(
            old(rt).store.index_of(task_key()),
            EntryModel {
                key: task_key(),
                value: final(rt).store.rows()[old(rt).store.index_of(task_key())].value,
                borrowed: false,
            },
        ),
        final(rt).store.rows()[old(rt).store.index_of(task_key())].value.kind()
            == ObjectKind::Counter,
        ({
            let c0 = old(rt).store.value_of(task_key()).as_counter();
            let c1 = final(rt).store.rows()[old(rt).store.index_of(task_key())].value.as_counter();
            if c0.remaining() == 0 {
                r == Some(0u8) && c1.remaining() == 0
            } else {
                r == None::<u8> && c1.remaining() == c0.remaining() - 1
            }
        }),
{
    let ghost pre = *rt;
    let key: &str = "task1";
    proof {
        reveal_strlit("task1");
    }
    let cr = rt.store.checkout(key);
    match cr {
        Ok(g) => {
            proof {
                let ti = pre.store.index_of(task_key());
                assert(rt.store.rows()[ti].value == pre.store.value_of(task_key()));
            }
            let c = rt.store.counter_mut(&g);
            let r = c.poll();
            rt.store.checkin(g);
            proof {
                let ti = pre.store.index_of(task_key());
                assert(rt.store.rows() =~= pre.store.rows().update(
                    ti,
                    EntryModel {
                        key: task_key(),
                        value: rt.store.rows()[ti].value,
                        borrowed: false,
                    },
                ));
            }
            r
        }
        Err(_) => {
            proof {
                assert(false);
            }
            None
        }
    }
}

/// What the task-object smoke test prints when the key is free: the
/// listing with the task present, the completion report, and the listing
/// with the task gone again.
pub open spec fn task_obj_lines(pre: Runtime) -> Seq<Seq<char>> {
    seq![objects_line(keys_of(pre.store.rows()).push(task_key()))] + maybe_log(
        pre.meta(),
        Severity::Info,
        0,
        "task1 finished with result: 0"@,
    ) + seq![objects_line(keys_of(pre.store.rows()))]
}

/// What the task-object smoke test leaves behind: the store exactly as
/// it was — the countdown was inserted, polled to completion and removed
/// again — and the listing and completion lines on the console.
pub open spec fn task_obj_post(pre: Runtime, post: Runtime) -> bool {
    if pre.store.contains_key(task_key()) {
        console_appended(pre, post, seq!["task-obj test: object already present"@])
    } else {
        &&& frame_but_store(pre, post)
        &&& store_console_appended(pre.store, post.store, task_obj_lines(pre))
    }
}

/// The task-object smoke test: park a countdown task in the store, poll
/// it to completion through the guard, and remove it again.
pub fn test_task_object(rt: &mut Runtime)
    requires
        old(rt).ready(),
    ensures
        final(rt).ready(),
        task_obj_post(*old(rt), *final(rt)),
{
    let ghost pre = *rt;
    proof {
        lemma_task_key_distinct();
        crate::runtime::lemma_keys_distinct();
        reveal_strlit("task1");
    }
    let ins = rt.store.insert("task1".to_owned(), ObjectValue::Counter(CounterTask::new(5)));
    match ins {
        Err(_) => {
            print_str(rt, "task-obj test: object already present");
        }
        Ok(()) => {
            let ghost te = EntryModel {
                key: task_key(),
                value: rt.store.rows().last().value,
                borrowed: false,
            };
            let ghost ti = pre.store.rows().len() as int;
            proof {
                assert(rt.store.rows() =~= pre.store.rows().push(te));
                ObjectStore::lemma_push_keeps_lookups(pre.store, rt.store, te);
            }
            let ghost s1 = *rt;
            print_objects(rt);
            let ghost s2 = *rt;
            proof {
                assert(keys_of(s1.store.rows()) =~= keys_of(pre.store.rows()).push(task_key()));
                let ci = s1.store.index_of(console_key());
                ObjectStore::lemma_update_keeps_lookups(
                    s1.store,
                    s2.store,
                    ci,
                    s2.store.rows()[ci],
                );
                assert(s2.store.rows()[ti].key == task_key());
                ObjectStore::lemma_row_lookup(s2.store, ti);
                assert(s1.console_out() == pre.console_out());
                assert(s1.meta() == pre.meta());
                assert(s2.console_out() =~= pre.console_out() + seq![task_obj_lines(pre)[0]]);
                assert(s2.meta() == pre.meta());
                assert(0 <= pre.store.index_of(console_key()) < ti);
                assert(0 <= pre.store.index_of(crate::runtime::logger_meta_key()) < ti);
                ObjectStore::lemma_row_lookup(pre.store, pre.store.index_of(console_key()));
                ObjectStore::lemma_row_lookup(
                    pre.store,
                    pre.store.index_of(crate::runtime::logger_meta_key()),
                );
                assert(s2.store.index_of(console_key()) == pre.store.index_of(console_key()));
                assert(s2.store.index_of(crate::runtime::logger_meta_key()) == pre.store.index_of(
                    crate::runtime::logger_meta_key(),
                ));
            }
            let mut i: usize = 0;
            while i < 5
                invariant
                    i <= 5,
                    rt.ready(),
                    rt.store.contains_key(task_key()),
                    !rt.store.is_borrowed(task_key()),
                    rt.store.index_of(task_key()) == ti,
                    rt.store.value_of(task_key()).kind() == ObjectKind::Counter,
                    rt.store.value_of(task_key()).as_counter().remaining() == 5 - i,
                    rt.store.rows().len() == s2.store.rows().len(),
                    forall|j: int|
                        0 <= j < rt.store.rows().len() && j != ti
                            ==> #[trigger] rt.store.rows()[j] == s2.store.rows()[j],
                    rt.store.rows()[ti].key == task_key(),
                    !rt.store.rows()[ti].borrowed,
                    frame_but_store(s2, *rt),
                decreases 5 - i,
            {
                let ghost before = *rt;
                let r = poll_task(rt);
                proof {
                    let e = EntryModel {
                        key: task_key(),
                        value: rt.store.rows()[ti].value,
                        borrowed: false,
                    };
                    ObjectStore::lemma_update_keeps_lookups(before.store, rt.store, ti, e);
                }
                i = i + 1;
            }
            let ghost s3 = *rt;
            proof {
                let ci = pre.store.index_of(console_key());
                let mi = pre.store.index_of(crate::runtime::logger_meta_key());
                assert(s3.store.rows()[ci] == s2.store.rows()[ci]);
                assert(s3.store.rows()[mi] == s2.store.rows()[mi]);
                ObjectStore::lemma_row_lookup(s2.store, ci);
                ObjectStore::lemma_row_lookup(s2.store, mi);
                ObjectStore::lemma_row_lookup(s3.store, ci);
                ObjectStore::lemma_row_lookup(s3.store, mi);
                assert(s3.console_out() == s2.console_out());
                assert(s3.meta() == s2.meta());
            }
            let r = poll_task(rt);
            let ghost s4 = *rt;
            proof {
                assert(r == Some(0u8));
                let e = EntryModel {
                    key: task_key(),
                    value: rt.store.rows()[ti].value,
                    borrowed: false,
                };
                ObjectStore::lemma_update_keeps_lookups(s3.store, rt.store, ti, e);
                assert(s4.console_out() == s3.console_out());
                assert(s4.meta() == s3.meta());
            }
            log_line(rt, "test", Severity::Info, 0, "task1 finished with result: 0");
            let ghost s5 = *rt;
            proof {
                if passes(s4.meta(), "test"@, Severity::Info, 0) {
                    let ci = s4.store.index_of(console_key());
                    ObjectStore::lemma_update_keeps_lookups(
                        s4.store,
                        s5.store,
                        ci,
                        s5.store.rows()[ci],
                    );
                } else {
                    assert(s5.store.rows() == s4.store.rows());
                    lemma_unchanged_is_empty_append(s4, s5);
                }
                assert(s5.store.rows()[ti].key == task_key());
                ObjectStore::lemma_row_lookup(s5.store, ti);
                assert(s5.store.index_of(task_key()) == ti);
                assert(s5.console_out() =~= s2.console_out() + maybe_log(
                    pre.meta(),
                    Severity::Info,
                    0,
                    "task1 finished with result: 0"@,
                ));
            }
            let rem = rt.store.remove("task1");
            let ghost s6 = *rt;
            proof {
                assert(rem is Ok);
                assert(s6.store.rows() == s5.store.rows().remove(ti));
                ObjectStore::lemma_remove_keeps_lookups(s5.store, s6.store, ti);
                assert(s6.store.rows().len() == pre.store.rows().len());
                let ci = pre.store.index_of(console_key());
                assert(s6.store.rows()[ci] == s5.store.rows()[ci]);
                ObjectStore::lemma_row_lookup(s5.store, ci);
                ObjectStore::lemma_row_lookup(s6.store, ci);
                assert(s6.console_out() == s5.console_out());
                assert(s6.console_in() == s5.console_in());
                assert(keys_of(s6.store.rows()) =~= keys_of(pre.store.rows()));
            }
            print_objects(rt);
            proof {
                let ci = pre.store.index_of(console_key());
                assert(s4.store.index_of(console_key()) == ci);
                assert(s6.store.index_of(console_key()) == ci);
                ObjectStore::lemma_update_keeps_lookups(
                    s6.store,
                    rt.store,
                    ci,
                    rt.store.rows()[ci],
                );
                assert forall|j: int|
                    0 <= j < pre.store.rows().len() && j != ci implies rt.store.rows()[j]
                    == pre.store.rows()[j] by {
                    assert(rt.store.rows()[j] == s6.store.rows()[j]);
                    assert(s6.store.rows()[j] == s5.store.rows()[j]);
                    if passes(s4.meta(), "test"@, Severity::Info, 0) {
                        assert(s5.store.rows()[j] == s4.store.rows()[j]);
                    } else {
                        assert(s5.store.rows()[j] == s4.store.rows()[j]);
                    }
                    assert(s4.store.rows()[j] == s3.store.rows()[j]);
                    assert(s3.store.rows()[j] == s2.store.rows()[j]);
                    assert(s2.store.rows()[j] == s1.store.rows()[j]);
                    assert(s1.store.rows()[j] == pre.store.rows()[j]);
                }
                assert(rt.store.rows().len() == pre.store.rows().len());
                assert(rt.store.rows()[ci].key == console_key());
                assert(rt.store.rows()[ci].borrowed == pre.store.rows()[ci].borrowed);
                assert(rt.store.rows() =~= pre.store.rows().update(ci, rt.store.rows()[ci]));
                assert(objects_line(keys_of(s6.store.rows())) == objects_line(
                    keys_of(pre.store.rows()),
                ));
                assert(rt.console_out() =~= pre.console_out() + task_obj_lines(pre));
                assert(rt.console_in() == pre.console_in());
            }
        }
    }
}

/// The address the first-fit allocator hands out for `size` bytes, if any.
pub open spec fn alloc_addr(h: Seq<crate::heap::BlockModel>, size: int) -> Option<int> {
    match crate::heap::alloc_step(h, crate::heap::round_up(size)) {
        Some((h2, a)) => Some(a),
        None => None,
    }
}

/// What the heap smoke test prints: a dump, two allocate-and-free
/// reports, and the dump again — identical, because each pair of calls
/// restores the accounting exactly.
pub open spec fn heap_test_lines(h: Seq<crate::heap::BlockModel>) -> Seq<Seq<char>> {
    dump_lines(h) + seq![alloc_line(10, alloc_addr(h, 10))] + seq![
        alloc_line(24, alloc_addr(h, 24)),
    ] + dump_lines(h)
}

/// The heap smoke test: allocate and free twice, dumping the accounting
/// before and after; the free-space accounting comes back identical.
pub fn test_heap(rt: &mut Runtime)
    requires
        old(rt).ready(),
    ensures
        final(rt).ready(),
        frame_but_store_heap(*old(rt), *final(rt)),
        final(rt).heap.view_blocks() == old(rt).heap.view_blocks(),
        store_console_appended(
            old(rt).store,
            final(rt).store,
            heap_test_lines(old(rt).heap.view_blocks()),
        ),
{
    let ghost pre = *rt;
    let ghost h = pre.heap.view_blocks();
    let ghost expected = heap_test_lines(h);
    dump_heap(rt);
    let ghost s1 = *rt;
    alloc_free_once(rt, 10);
    let ghost s2 = *rt;
    proof {
        lemma_store_console_appended_trans(
            pre.store,
            s1.store,
            s2.store,
            dump_lines(h),
            seq![alloc_line(10, alloc_addr(h, 10))],
        );
    }
    alloc_free_once(rt, 24);
    let ghost s3 = *rt;
    proof {
        lemma_store_console_appended_trans(
            pre.store,
            s2.store,
            s3.store,
            dump_lines(h) + seq![alloc_line(10, alloc_addr(h, 10))],
            seq![alloc_line(24, alloc_addr(h, 24))],
        );
    }
    dump_heap(rt);
    proof {
        lemma_store_console_appended_trans(
            pre.store,
            s3.store,
            rt.store,
            dump_lines(h) + seq![alloc_line(10, alloc_addr(h, 10))] + seq![
                alloc_line(24, alloc_addr(h, 24)),
            ],
            dump_lines(h),
        );
    }
}

/// Prints the heap accounting.
fn dump_heap(rt: &mut Runtime)
    requires
        old(rt).ready(),
    ensures
        final(rt).ready(),
        console_appended(*old(rt), *final(rt), dump_lines(old(rt).heap.view_blocks())),
{
    let ghost pre = *rt;
    let lines = rt.heap.dump();
    proof {
        assert(lines.deep_view() =~= dump_lines(pre.heap.view_blocks()));
    }
    crate::runtime::print_lines(rt, lines);
}

/// Allocates `size` bytes, reports the address, and frees it again; the
/// accounting is exactly what it was.
fn alloc_free_once(rt: &mut Runtime, size: usize)
    requires
        old(rt).ready(),
    ensures
        final(rt).ready(),
        frame_but_store_heap(*old(rt), *final(rt)),
        final(rt).heap.view_blocks() == old(rt).heap.view_blocks(),
        store_console_appended(
            old(rt).store,
            final(rt).store,
            seq![alloc_line(size as int, alloc_addr(old(rt).heap.view_blocks(), size as int))],
        ),
{
    let ghost pre = *rt;
    let ghost h = pre.heap.view_blocks();
    let r = rt.heap.allocate(size);
    let ghost h1 = rt.heap.view_blocks();
    let mut line = String::new();
    line.append("alloc(");
    let size_str = crate::text::fmt_dec(size as u64);
    line.append(size_str.as_str());
    line.append("): ");
    match r {
        Some(addr) => {
            line.append("0x");
            let addr_str = crate::text::fmt_hex(addr as u64);
            line.append(addr_str.as_str());
            proof {
                assert(line@ == alloc_line(size as int, alloc_addr(h, size as int)));
            }
            print_line(rt, line);
            let _freed = rt.heap.free(addr);
            proof {
                crate::heap::lemma_alloc_free_roundtrip(
                    h,
                    crate::heap::round_up(size as int),
                    h1,
                    addr as int,
                );
            }
        }
        None => {
            line.append("failed");
            proof {
                assert(line@ == alloc_line(size as int, alloc_addr(h, size as int)));
            }
            print_line(rt, line);
        }
    }
}

} // verus!
