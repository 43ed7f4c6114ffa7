//! The process-wide runtime context: the object store, the callback
//! registry, the heap accounting, the shell's variables and the dispatch
//! decisions waiting for the board. What a bare-metal build would keep in
//! ambient statics is one value here, handed explicitly to the shell and
//! the interrupt paths; boot builds it, and the fatal-error path owns the
//! one privileged reset.

use vstd::prelude::*;

use crate::callback::BoardInterface;
use crate::callback::Callback;
use crate::callback::Invocation;
use crate::heap::Heap;
use crate::log::ModuleMetaManager;
use crate::log::Severity;
use crate::object::EntryModel;
use crate::object::ObjectKind;
use crate::object::ObjectStore;
use crate::object::ObjectValue;
use crate::time::TimeProvider;
use crate::tty::Tty;

verus! {

/// The console object's key.
pub open spec fn console_key() -> Seq<char> {
    "console"@
}

pub fn console_key_str() -> (s: &'static str)
    ensures
        s@ == console_key(),
{
    "console"
}

/// The logger metadata object's key.
pub open spec fn logger_meta_key() -> Seq<char> {
    "logger_meta"@
}

pub fn logger_meta_key_str() -> (s: &'static str)
    ensures
        s@ == logger_meta_key(),
{
    "logger_meta"
}

/// The tick counter object's key.
pub open spec fn time_key() -> Seq<char> {
    "time"@
}

pub fn time_key_str() -> (s: &'static str)
    ensures
        s@ == time_key(),
{
    "time"
}

/// The three boot objects have three different keys.
pub proof fn lemma_keys_distinct()
    ensures
        console_key() != logger_meta_key(),
        console_key() != time_key(),
        logger_meta_key() != time_key(),
{
    reveal_strlit("console");
    reveal_strlit("logger_meta");
    reveal_strlit("time");
    assert(console_key().len() == 7);
    assert(logger_meta_key().len() == 11);
    assert(time_key().len() == 4);
}

/// One shell variable, set by `set` and listed by `env`.
pub struct VarEntry {
    pub name: String,
    pub value: String,
}

/// The runtime context every shell command and interrupt path works on.
pub struct Runtime {
    pub store: ObjectStore,
    pub board: BoardInterface,
    pub heap: Heap,
    pub vars: Vec<VarEntry>,
    /// Dispatch decisions the board still has to perform.
    pub pending: Vec<Invocation>,
    /// Set by the fatal-error path; the board stops the loop on it.
    pub halted: bool,
}

/// The store holds `key` with an unborrowed value of kind `kind`.
pub open spec fn object_ready(s: ObjectStore, key: Seq<char>, kind: ObjectKind) -> bool {
    &&& s.contains_key(key)
    &&& s.value_of(key).kind() == kind
    &&& !s.is_borrowed(key)
}

impl Runtime {
    /// The steady state between operations: the store is sound, the lock
    /// is free, and the three boot objects are in place and unborrowed.
    pub open spec fn ready(self) -> bool {
        &&& self.store.wf()
        &&& !self.board.locked()
        &&& object_ready(self.store, console_key(), ObjectKind::Tty)
        &&& object_ready(self.store, logger_meta_key(), ObjectKind::LoggerMeta)
        &&& object_ready(self.store, time_key(), ObjectKind::Time)
        &&& self.meta().wf()
        &&& self.heap.wf()
    }

    /// What the console has printed so far.
    pub open spec fn console_out(self) -> Seq<Seq<char>> {
        self.store.value_of(console_key()).as_tty().out_lines()
    }

    /// The input lines the console still holds.
    pub open spec fn console_in(self) -> Seq<Seq<char>> {
        self.store.value_of(console_key()).as_tty().in_lines()
    }

    /// The logger metadata table.
    pub open spec fn meta(self) -> ModuleMetaManager {
        self.store.value_of(logger_meta_key()).as_meta()
    }

    /// The global tick count.
    pub open spec fn tick(self) -> u32 {
        self.store.value_of(time_key()).as_time().tick()
    }
}

/// The runtime's parts other than the store are unchanged.
pub open spec fn frame_but_store(pre: Runtime, post: Runtime) -> bool {
    &&& post.board == pre.board
    &&& post.heap == pre.heap
    &&& post.vars == pre.vars
    &&& post.pending == pre.pending
    &&& post.halted == pre.halted
}

/// Nothing observable changed: the store reads entirely as before, and
/// the rest of the runtime is untouched.
pub open spec fn unchanged(pre: Runtime, post: Runtime) -> bool {
    &&& frame_but_store(pre, post)
    &&& post.store.rows() == pre.store.rows()
}

/// The store's entry for `key` has its value replaced by `v`: every other
/// entry, and the entry's own key and borrow state, read as they did.
pub open spec fn store_value_replaced(
    pre: ObjectStore,
    post: ObjectStore,
    key: Seq<char>,
    v: ObjectValue,
) -> bool {
    &&& pre.contains_key(key)
    &&& post.rows() == pre.rows().update(
        pre.index_of(key),
        EntryModel { key, value: v, borrowed: pre.rows()[pre.index_of(key)].borrowed },
    )
}

/// The store changed only at the console entry, whose terminal gained
/// `lines` of output.
pub open spec fn store_console_appended(
    pre: ObjectStore,
    post: ObjectStore,
    lines: Seq<Seq<char>>,
) -> bool {
    &&& pre.contains_key(console_key())
    &&& store_value_replaced(
        pre,
        post,
        console_key(),
        post.rows()[pre.index_of(console_key())].value,
    )
    &&& post.value_of(console_key()).kind() == ObjectKind::Tty
    &&& post.value_of(console_key()).as_tty().out_lines() == pre.value_of(
        console_key(),
    ).as_tty().out_lines() + lines
    &&& post.value_of(console_key()).as_tty().in_lines() == pre.value_of(
        console_key(),
    ).as_tty().in_lines()
}

/// Only the console changed, and only by appending `lines` to its output.
pub open spec fn console_appended(pre: Runtime, post: Runtime, lines: Seq<Seq<char>>) -> bool {
    &&& frame_but_store(pre, post)
    &&& store_console_appended(pre.store, post.store, lines)
}

/// Appending nothing is a valid append.
pub proof fn lemma_console_appended_refl(rt: Runtime)
    requires
        rt.store.wf(),
        rt.store.contains_key(console_key()),
        rt.store.value_of(console_key()).kind() == ObjectKind::Tty,
    ensures
        console_appended(rt, rt, Seq::<Seq<char>>::empty()),
{
    let ci = rt.store.index_of(console_key());
    ObjectStore::lemma_row_lookup(rt.store, ci);
    assert(rt.store.rows() =~= rt.store.rows().update(ci, rt.store.rows()[ci]));
    assert(rt.console_out() =~= rt.console_out() + Seq::<Seq<char>>::empty());
}

/// Appending twice appends the concatenation.
pub proof fn lemma_console_appended_trans(
    a: Runtime,
    b: Runtime,
    c: Runtime,
    l1: Seq<Seq<char>>,
    l2: Seq<Seq<char>>,
)
    requires
        a.store.wf(),
        console_appended(a, b, l1),
        console_appended(b, c, l2),
    ensures
        console_appended(a, c, l1 + l2),
{
    let ci = a.store.index_of(console_key());
    ObjectStore::lemma_update_keeps_lookups(a.store, b.store, ci, b.store.rows()[ci]);
    ObjectStore::lemma_update_keeps_lookups(b.store, c.store, ci, c.store.rows()[ci]);
    assert(c.store.rows() =~= a.store.rows().update(ci, c.store.rows()[ci]));
    assert(c.console_out() =~= a.console_out() + (l1 + l2));
}

/// A run that changed nothing appended nothing.
pub proof fn lemma_unchanged_is_empty_append(a: Runtime, b: Runtime)
    requires
        unchanged(a, b),
        a.store.wf(),
        a.store.contains_key(console_key()),
        a.store.value_of(console_key()).kind() == ObjectKind::Tty,
    ensures
        console_appended(a, b, Seq::<Seq<char>>::empty()),
{
    let ci = a.store.index_of(console_key());
    ObjectStore::lemma_row_lookup(a.store, ci);
    assert(b.store.rows() =~= a.store.rows().update(ci, a.store.rows()[ci]));
    assert(b.console_out() =~= a.console_out() + Seq::<Seq<char>>::empty());
}

/// Store-level composition of console appends, for paths that also touch
/// the heap between prints.
pub proof fn lemma_store_console_appended_trans(
    a: ObjectStore,
    b: ObjectStore,
    c: ObjectStore,
    l1: Seq<Seq<char>>,
    l2: Seq<Seq<char>>,
)
    requires
        a.wf(),
        store_console_appended(a, b, l1),
        store_console_appended(b, c, l2),
    ensures
        store_console_appended(a, c, l1 + l2),
{
    let ci = a.index_of(console_key());
    ObjectStore::lemma_update_keeps_lookups(a, b, ci, b.rows()[ci]);
    ObjectStore::lemma_update_keeps_lookups(b, c, ci, c.rows()[ci]);
    assert(c.rows() =~= a.rows().update(ci, c.rows()[ci]));
    assert(c.value_of(console_key()).as_tty().out_lines() =~= a.value_of(
        console_key(),
    ).as_tty().out_lines() + (l1 + l2));
}

/// Writes one line to the console.
pub fn print_line(rt: &mut Runtime, line: String)
    requires
        old(rt).ready(),
    ensures
        final(rt).ready(),
        console_appended(*old(rt), *final(rt), seq![line@]),
{
    let ghost pre = *rt;
    proof {
        lemma_keys_distinct();
    }
    let key = console_key_str();
    let r = rt.store.checkout(key);
    match r {
        Ok(g) => {
            let t = rt.store.tty_mut(&g);
            t.write_line(line);
            rt.store.checkin(g);
            proof {
                let ci = pre.store.index_of(console_key());
                let e = EntryModel {
                    key: console_key(),
                    value: rt.store.rows()[ci].value,
                    borrowed: false,
                };
                assert(rt.store.rows() =~= pre.store.rows().update(ci, e));
                ObjectStore::lemma_update_keeps_lookups(pre.store, rt.store, ci, e);
                assert(rt.console_out() =~= pre.console_out() + seq![line@]);
            }
        }
        Err(_) => {
            proof {
                assert(false);
            }
        }
    }
}

/// Writes a batch of lines to the console, in order.
pub fn print_lines(rt: &mut Runtime, lines: Vec<String>)
    requires
        old(rt).ready(),
    ensures
        final(rt).ready(),
        console_appended(*old(rt), *final(rt), lines.deep_view()),
{
    let ghost pre = *rt;
    let ghost expected = lines.deep_view();
    proof {
        lemma_console_appended_refl(pre);
        assert(expected.take(0) =~= Seq::<Seq<char>>::empty());
    }
    let n = lines.len();
    let mut i: usize = 0;
    while i < n
        invariant
            i <= n,
            rt.ready(),
            pre.store.wf(),
            n == lines@.len(),
            expected == lines.deep_view(),
            console_appended(pre, *rt, expected.take(i as int)),
        decreases n - i,
    {
        let ghost mid = *rt;
        let line = lines[i].clone();
        proof {
            assert(line@ == lines@[i as int]@);
            assert(lines@[i as int]@ == lines.deep_view()[i as int]);
        }
        print_line(rt, line);
        proof {
            lemma_console_appended_trans(
                pre,
                mid,
                *rt,
                expected.take(i as int),
                seq![expected[i as int]],
            );
            assert(expected.take(i as int) + seq![expected[i as int]] =~= expected.take(
                i as int + 1,
            ));
        }
        i = i + 1;
    }
    proof {
        assert(expected.take(n as int) =~= expected);
    }
}

/// Writes a borrowed line to the console.
pub fn print_str(rt: &mut Runtime, line: &str)
    requires
        old(rt).ready(),
    ensures
        final(rt).ready(),
        console_appended(*old(rt), *final(rt), seq![line@]),
{
    print_line(rt, line.to_owned());
}

/// The line the logging path prints for a message that passes the filter.
pub open spec fn log_line_text(module: Seq<char>, sev: Severity, text: Seq<char>) -> Seq<char> {
    "["@ + crate::log::severity_chars(sev) + "] "@ + module + ": "@ + text
}

/// Whether the metadata lets a message from `module` at `sev` and `lvl`
/// through.
pub open spec fn passes(m: ModuleMetaManager, module: Seq<char>, sev: Severity, lvl: u8) -> bool {
    m.contains_module(module) && crate::log::spec_allows(
        m.severity_of(module),
        m.level_of(module),
        sev,
        lvl,
    )
}

/// Only the console changed, by appending the log line exactly when the
/// module's metadata lets a message at `sev` and `lvl` through.
pub open spec fn logged(
    pre: Runtime,
    post: Runtime,
    module: Seq<char>,
    sev: Severity,
    lvl: u8,
    text: Seq<char>,
) -> bool {
    if passes(pre.meta(), module, sev, lvl) {
        console_appended(pre, post, seq![log_line_text(module, sev, text)])
    } else {
        unchanged(pre, post)
    }
}

/// Prints one log message, if the module's metadata allows it. The
/// metadata is consulted before anything is formatted.
pub fn log_line(rt: &mut Runtime, module: &str, sev: Severity, lvl: u8, text: &str)
    requires
        old(rt).ready(),
    ensures
        final(rt).ready(),
        logged(*old(rt), *final(rt), module@, sev, lvl, text@),
{
    let ghost pre = *rt;
    proof {
        lemma_keys_distinct();
    }
    let mkey = logger_meta_key_str();
    let r = rt.store.checkout(mkey);
    match r {
        Ok(g) => {
            proof {
                let mi = pre.store.index_of(logger_meta_key());
                assert(rt.store.rows()[mi].value == pre.store.value_of(logger_meta_key()));
            }
            let m = rt.store.meta_mut(&g);
            let allowed = m.allows(module, sev, lvl);
            rt.store.checkin(g);
            proof {
                let mi = pre.store.index_of(logger_meta_key());
                let v = pre.store.value_of(logger_meta_key());
                assert(v == ObjectValue::LoggerMeta(v.as_meta()));
                assert(rt.store.rows() =~= pre.store.rows());
            }
            if allowed {
                let mut line = String::new();
                line.append("[");
                let sev_name = sev.name();
                line.append(sev_name.as_str());
                line.append("] ");
                line.append(module);
                line.append(": ");
                line.append(text);
                print_line(rt, line);
            }
        }
        Err(_) => {
            proof {
                assert(false);
            }
        }
    }
}

/// Advances the global tick and decides the system-tick dispatch: what
/// the periodic timer interrupt does before it returns to the preempted
/// code.
pub fn system_tick(rt: &mut Runtime) -> (r: Option<Invocation>)
    requires
        old(rt).ready(),
    ensures
        final(rt).ready(),
        frame_but_store(*old(rt), *final(rt)),
        store_value_replaced(
            old(rt).store,
            final(rt).store,
            time_key(),
            final(rt).store.rows()[old(rt).store.index_of(time_key())].value,
        ),
        final(rt).tick() == crate::time::next_tick(old(rt).tick()),
        final(rt).console_out() == old(rt).console_out(),
        final(rt).console_in() == old(rt).console_in(),
        final(rt).meta() == old(rt).meta(),
        r == old(rt).board.dispatch_of(Callback::Systick),
{
    let ghost pre = *rt;
    proof {
        lemma_keys_distinct();
    }
    let key = time_key_str();
    let cr = rt.store.checkout(key);
    match cr {
        Ok(g) => {
            let t = rt.store.time_mut(&g);
            t.increment();
            rt.store.checkin(g);
            proof {
                let ti = pre.store.index_of(time_key());
                let e = EntryModel {
                    key: time_key(),
                    value: rt.store.rows()[ti].value,
                    borrowed: false,
                };
                assert(rt.store.rows() =~= pre.store.rows().update(ti, e));
                ObjectStore::lemma_update_keeps_lookups(pre.store, rt.store, ti, e);
            }
            rt.board.callback(Callback::Systick)
        }
        Err(_) => {
            proof {
                assert(false);
            }
            None
        }
    }
}

/// Reads the global tick without changing anything.
pub fn read_tick(rt: &mut Runtime) -> (t: u32)
    requires
        old(rt).ready(),
    ensures
        final(rt).ready(),
        unchanged(*old(rt), *final(rt)),
        t == old(rt).tick(),
{
    let ghost pre = *rt;
    let key = time_key_str();
    let cr = rt.store.checkout(key);
    match cr {
        Ok(g) => {
            proof {
                let ti = pre.store.index_of(time_key());
                assert(rt.store.rows()[ti].value == pre.store.value_of(time_key()));
            }
            let tp = rt.store.time_mut(&g);
            let t = tp.now();
            rt.store.checkin(g);
            proof {
                let v = pre.store.value_of(time_key());
                assert(v == ObjectValue::Time(v.as_time()));
                assert(rt.store.rows() =~= pre.store.rows());
            }
            t
        }
        Err(_) => {
            proof {
                assert(false);
            }
            0
        }
    }
}

/// The banner and message lines of a panic report.
/// The view of an optional borrowed string.
pub open spec fn opt_str_view(s: Option<&str>) -> Option<Seq<char>> {
    match s {
        Some(x) => Some(x@),
        None => None,
    }
}

/// The banner, message, and — when the panic site is known — location
/// lines of a panic report.
pub open spec fn panic_lines(msg: Seq<char>, loc: Option<Seq<char>>) -> Seq<Seq<char>> {
    match loc {
        Some(l) => seq!["        PANIC        "@, "Message:  "@ + msg, "Location: "@ + l],
        None => seq!["        PANIC        "@, "Message:  "@ + msg],
    }
}

/// The fatal-error path. Every outstanding borrow is forced open — at
/// this stage nothing matters but delivering the report, and the code
/// that held the guards will never run again — and the report is written
/// to the console object, which is reachable again whatever was checked
/// out when the panic struck. The runtime is marked halted.
pub fn panic_report(rt: &mut Runtime, msg: &str, loc: Option<&str>)
    requires
        old(rt).store.wf(),
        old(rt).store.contains_key(console_key()),
        old(rt).store.value_of(console_key()).kind() == ObjectKind::Tty,
    ensures
        final(rt).halted,
        final(rt).board == old(rt).board,
        final(rt).heap == old(rt).heap,
        final(rt).vars == old(rt).vars,
        final(rt).pending == old(rt).pending,
        final(rt).store.wf(),
        final(rt).store.rows().len() == old(rt).store.rows().len(),
        forall|i: int|
            0 <= i < old(rt).store.rows().len() && i != old(rt).store.index_of(console_key())
                ==> #[trigger] final(rt).store.rows()[i] == (EntryModel {
                key: old(rt).store.rows()[i].key,
                value: old(rt).store.rows()[i].value,
                borrowed: false,
            }),
        final(rt).store.rows()[old(rt).store.index_of(console_key())].key == console_key(),
        final(rt).store.contains_key(console_key()),
        !final(rt).store.is_borrowed(console_key()),
        final(rt).store.value_of(console_key()).kind() == ObjectKind::Tty,
        final(rt).console_out() == old(rt).console_out() + panic_lines(msg@, opt_str_view(loc)),
        final(rt).console_in() == old(rt).console_in(),
{
    let ghost pre = *rt;
    rt.store.reset_borrows();
    let ghost reset = rt.store;
    proof {
        let ci = pre.store.index_of(console_key());
        ObjectStore::lemma_row_lookup(pre.store, ci);
        assert(reset.rows()[ci].key == console_key());
        ObjectStore::lemma_row_lookup(reset, ci);
    }
    let key = console_key_str();
    let r = rt.store.checkout(key);
    match r {
        Ok(g) => {
            let t = rt.store.tty_mut(&g);
            t.write_line("        PANIC        ".to_owned());
            let mut line = String::new();
            line.append("Message:  ");
            line.append(msg);
            t.write_line(line);
            match loc {
                Some(l) => {
                    let mut loc_line = String::new();
                    loc_line.append("Location: ");
                    loc_line.append(l);
                    t.write_line(loc_line);
                }
                None => {}
            }
            rt.store.checkin(g);
            proof {
                let ci = reset.index_of(console_key());
                let e = EntryModel {
                    key: console_key(),
                    value: rt.store.rows()[ci].value,
                    borrowed: false,
                };
                assert(rt.store.rows() =~= reset.rows().update(ci, e));
                ObjectStore::lemma_update_keeps_lookups(reset, rt.store, ci, e);
                assert(rt.console_out() =~= pre.console_out() + panic_lines(
                    msg@,
                    opt_str_view(loc),
                ));
            }
        }
        Err(_) => {
            proof {
                assert(false);
            }
        }
    }
    rt.halted = true;
}

/// Builds the runtime the boards boot with: a fresh heap and registry, a
/// console, the tick counter, and the logger metadata holding exactly the
/// known modules.
pub fn init_runtime() -> (rt: Runtime)
    ensures
        rt.ready(),
        rt.console_out() =~= Seq::<Seq<char>>::empty(),
        rt.console_in() =~= Seq::<Seq<char>>::empty(),
        rt.tick() == 0,
        !rt.halted,
        rt.pending@.len() == 0,
        rt.vars@.len() == 0,
        forall|k: crate::callback::CallbackKind| #[trigger] rt.board.slot(k) == None::<u32>,
        rt.meta().rows() =~= seq![
            ("test"@, Severity::Trace, 255u8),
            ("shell"@, Severity::Trace, 255u8),
            ("radio"@, Severity::Trace, 2u8),
            ("alloc"@, Severity::Warn, 0u8),
        ],
        rt.heap.view_blocks() =~= seq![
            crate::heap::BlockModel {
                off: crate::heap::HEAP_BASE as int,
                size: crate::heap::HEAP_SIZE as int,
                used: false,
            },
        ],
{
    proof {
        lemma_keys_distinct();
    }
    let mut store = ObjectStore::new();
    let ghost s0 = store;
    let r1 = store.insert(console_key_str().to_owned(), ObjectValue::Tty(Tty::new()));
    let ghost s1 = store;
    let mut meta = ModuleMetaManager::new();
    proof {
        reveal_strlit("test");
        reveal_strlit("shell");
        reveal_strlit("radio");
        reveal_strlit("alloc");
        assert("test"@.len() == 4);
        assert("shell"@.len() == 5);
        assert("radio"@.len() == 5);
        assert("alloc"@.len() == 5);
        assert("shell"@[0] != "radio"@[0]);
        assert("shell"@[0] != "alloc"@[0]);
        assert("radio"@[0] != "alloc"@[0]);
    }
    meta.register("test", Severity::Trace, 255);
    let ghost m1 = meta;
    meta.register("shell", Severity::Trace, 255);
    let ghost m2 = meta;
    meta.register("radio", Severity::Trace, 2);
    let ghost m3 = meta;
    meta.register("alloc", Severity::Warn, 0);
    proof {
        assert(m1.rows() =~= seq![("test"@, Severity::Trace, 255u8)]);
        assert(!m1.contains_module("shell"@));
        assert(m2.rows() =~= m1.rows().push(("shell"@, Severity::Trace, 255u8)));
        assert(!m2.contains_module("radio"@));
        assert(m3.rows() =~= m2.rows().push(("radio"@, Severity::Trace, 2u8)));
        assert(!m3.contains_module("alloc"@));
        assert(meta.rows() =~= seq![
            ("test"@, Severity::Trace, 255u8),
            ("shell"@, Severity::Trace, 255u8),
            ("radio"@, Severity::Trace, 2u8),
            ("alloc"@, Severity::Warn, 0u8),
        ]);
    }
    let r2 = store.insert(logger_meta_key_str().to_owned(), ObjectValue::LoggerMeta(meta));
    let ghost s2 = store;
    let r3 = store.insert(time_key_str().to_owned(), ObjectValue::Time(TimeProvider::new()));
    proof {
        assert(s1.rows()[0].key == console_key());
        ObjectStore::lemma_row_lookup(s1, 0);
        assert(r2 is Ok);
        assert(s2.rows()[0].key == console_key());
        assert(s2.rows()[1].key == logger_meta_key());
        ObjectStore::lemma_row_lookup(s2, 0);
        ObjectStore::lemma_row_lookup(s2, 1);
        assert(r3 is Ok);
        assert(store.rows()[0].key == console_key());
        assert(store.rows()[1].key == logger_meta_key());
        assert(store.rows()[2].key == time_key());
        ObjectStore::lemma_row_lookup(store, 0);
        ObjectStore::lemma_row_lookup(store, 1);
        ObjectStore::lemma_row_lookup(store, 2);
    }
    Runtime {
        store,
        board: BoardInterface::new(),
        heap: Heap::new(),
        vars: Vec::new(),
        pending: Vec::new(),
        halted: false,
    }
}

} // verus!
