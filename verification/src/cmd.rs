//! The shell's commands: the builtins every table carries and the
//! application commands that reach into the runtime — fault injection,
//! the object store, the heap, the logger metadata and the tick count.
//! The dispatcher sees no difference between the two groups.

use vstd::prelude::*;

use crate::callback::Callback;
use crate::object::EntryModel;
use crate::runtime::console_appended;
use crate::runtime::frame_but_store;
use crate::runtime::lemma_console_appended_refl;
use crate::runtime::lemma_console_appended_trans;
use crate::runtime::lemma_unchanged_is_empty_append;
use crate::runtime::logged;
use crate::runtime::panic_lines;
use crate::runtime::print_line;
use crate::runtime::print_str;
use crate::runtime::unchanged;
use crate::runtime::Runtime;
use crate::runtime::VarEntry;
use crate::shell::Shell;
use crate::text::dec_chars;

verus! {

/// What a command does; the table maps names to these.
#[derive(Clone, Copy, PartialEq, Eq, Structural, Debug)]
pub enum CommandId {
    Help,
    Echo,
    Env,
    SetVar,
    Panic,
    Crash,
    Obj,
    Mem,
    Log,
    Time,
    Test,
}

/// The arguments joined with single spaces.
pub open spec fn join_spaces(args: Seq<Seq<char>>) -> Seq<char>
    decreases args.len(),
{
    if args.len() == 0 {
        Seq::empty()
    } else if args.len() == 1 {
        args[0]
    } else {
        args[0] + " "@ + join_spaces(args.skip(1))
    }
}

pub proof fn lemma_join_push(args: Seq<Seq<char>>, x: Seq<char>)
    ensures
        join_spaces(args.push(x)) == if args.len() == 0 {
            x
        } else {
            join_spaces(args) + " "@ + x
        },
    decreases args.len(),
{
    let p = args.push(x);
    if args.len() == 0 {
        assert(p.len() == 1);
        assert(p[0] == x);
    } else {
        assert(p[0] == args[0]);
        assert(p.skip(1) =~= args.skip(1).push(x));
        lemma_join_push(args.skip(1), x);
        if args.len() == 1 {
            assert(args.skip(1).len() == 0);
            assert(join_spaces(p) == args[0] + " "@ + x);
            assert(join_spaces(args) == args[0]);
        } else {
            assert(join_spaces(p) == args[0] + " "@ + (join_spaces(args.skip(1)) + " "@ + x));
            assert(args[0] + " "@ + (join_spaces(args.skip(1)) + " "@ + x) =~= (args[0] + " "@
                + join_spaces(args.skip(1))) + " "@ + x);
        }
    }
}

/// The help line one command gets.
pub open spec fn help_line(name: Seq<char>, desc: Seq<char>) -> Seq<char> {
    name + " - "@ + desc
}

/// The lines `help` prints, one per command, table order.
pub open spec fn help_lines(table: Seq<(Seq<char>, Seq<char>, CommandId)>) -> Seq<Seq<char>> {
    Seq::new(table.len(), |i: int| help_line(table[i].0, table[i].1))
}

/// The line `env` prints for one variable.
pub open spec fn var_line(name: Seq<char>, value: Seq<char>) -> Seq<char> {
    name + "="@ + value
}

/// The shell variables as (name, value) pairs.
pub open spec fn vars_view(vs: Seq<VarEntry>) -> Seq<(Seq<char>, Seq<char>)> {
    Seq::new(vs.len(), |i: int| (vs[i].name@, vs[i].value@))
}

/// The first variable named `name`, from index `i` on, or -1.
pub open spec fn var_find(vs: Seq<(Seq<char>, Seq<char>)>, i: int, name: Seq<char>) -> int
    decreases vs.len() - i,
{
    if i < 0 || i >= vs.len() {
        -1
    } else if vs[i].0 == name {
        i
    } else {
        var_find(vs, i + 1, name)
    }
}

/// The lines `obj list` prints: every key, indented, insertion order.
pub open spec fn obj_list_lines(rows: Seq<EntryModel>) -> Seq<Seq<char>> {
    Seq::new(rows.len(), |i: int| "  "@ + rows[i].key)
}

/// The panic message: the first argument, or the default.
pub open spec fn panic_msg(args: Seq<Seq<char>>) -> Seq<char> {
    if args.len() > 0 {
        args[0]
    } else {
        "Manual panic"@
    }
}

/// What `panic` leaves behind: the runtime is halted, every borrow is
/// open again, the report reached the console, and nothing else moved.
/// A deliberate shell panic carries no panic-site location; the board's
/// fatal path hands one to the reporter when it has one.
pub open spec fn panic_post(pre: Runtime, post: Runtime, args: Seq<Seq<char>>, status: i8) -> bool {
    &&& status == 0
    &&& post.halted
    &&& post.board == pre.board
    &&& post.heap == pre.heap
    &&& post.vars == pre.vars
    &&& post.pending == pre.pending
    &&& post.store.rows().len() == pre.store.rows().len()
    &&& post.console_out() == pre.console_out() + panic_lines(panic_msg(args), None)
    &&& post.console_in() == pre.console_in()
}

/// What `crash` leaves behind: the fault-trigger dispatch, when a handler
/// is registered, is queued for the board; with none registered the call
/// is a silent no-op. Nothing else moves.
pub open spec fn crash_post(pre: Runtime, post: Runtime, args: Seq<Seq<char>>, status: i8) -> bool {
    &&& status == 0
    &&& post.store.rows() == pre.store.rows()
    &&& post.board == pre.board
    &&& post.heap == pre.heap
    &&& post.vars == pre.vars
    &&& post.halted == pre.halted
    &&& match pre.board.dispatch_of(Callback::TriggerCrash) {
        Some(inv) => post.pending@ == pre.pending@.push(inv),
        None => post.pending == pre.pending,
    }
}

/// The `time` command's message.
pub open spec fn time_text(t: u32) -> Seq<char> {
    "tick: "@ + dec_chars(t as nat)
}

pub open spec fn time_post(pre: Runtime, post: Runtime, args: Seq<Seq<char>>, status: i8) -> bool {
    &&& status == 0
    &&& logged(pre, post, "shell"@, crate::log::Severity::Info, 0, time_text(pre.tick()))
}

pub open spec fn help_post(
    shell: Shell,
    pre: Runtime,
    post: Runtime,
    args: Seq<Seq<char>>,
    status: i8,
) -> bool {
    &&& status == 0
    &&& console_appended(pre, post, help_lines(shell.table()))
}

pub open spec fn echo_post(pre: Runtime, post: Runtime, args: Seq<Seq<char>>, status: i8) -> bool {
    &&& status == 0
    &&& console_appended(pre, post, seq![join_spaces(args)])
}

pub open spec fn env_post(pre: Runtime, post: Runtime, args: Seq<Seq<char>>, status: i8) -> bool {
    &&& status == 0
    &&& console_appended(
        pre,
        post,
        Seq::new(
            vars_view(pre.vars@).len(),
            |i: int| var_line(vars_view(pre.vars@)[i].0, vars_view(pre.vars@)[i].1),
        ),
    )
}

/// What `set` leaves behind: the named variable holds the given value —
/// in place when it existed, at the end when it is new.
pub open spec fn set_post(pre: Runtime, post: Runtime, args: Seq<Seq<char>>, status: i8) -> bool {
    if args.len() < 2 {
        &&& status == 1
        &&& console_appended(pre, post, seq!["set NAME VALUE"@])
    } else {
        &&& status == 0
        &&& post.store.rows() == pre.store.rows()
        &&& post.board == pre.board
        &&& post.heap == pre.heap
        &&& post.pending == pre.pending
        &&& post.halted == pre.halted
        &&& {
            let vs = vars_view(pre.vars@);
            let i = var_find(vs, 0, args[0]);
            if i == -1 {
                vars_view(post.vars@) == vs.push((args[0], args[1]))
            } else {
                vars_view(post.vars@) == vs.update(i, (args[0], args[1]))
            }
        }
    }
}

/// What `obj` leaves behind: `list` (or nothing) prints every key; any
/// other subcommand is reported and fails. The store itself never moves.
pub open spec fn obj_post(pre: Runtime, post: Runtime, args: Seq<Seq<char>>, status: i8) -> bool {
    if args.len() == 0 || args[0] == "list"@ {
        &&& status == 0
        &&& console_appended(pre, post, obj_list_lines(pre.store.rows()))
    } else {
        &&& status == 1
        &&& console_appended(pre, post, seq!["Unknown subcommand: "@ + args[0]])
    }
}

/// The runtime's parts other than the store and the heap are unchanged.
pub open spec fn frame_but_store_heap(pre: Runtime, post: Runtime) -> bool {
    &&& post.board == pre.board
    &&& post.vars == pre.vars
    &&& post.pending == pre.pending
    &&& post.halted == pre.halted
}

/// The `mem` command's usage line.
pub open spec fn mem_usage_line() -> Seq<char> {
    "mem [help|info|alloc|free]"@
}

/// The size `mem alloc` uses: the parsed second argument, or zero when it
/// is missing or not a number that fits.
pub open spec fn alloc_size_of(args: Seq<Seq<char>>) -> int {
    if args.len() >= 2 && crate::text::is_dec_str(args[1]) && crate::text::dec_val(args[1])
        <= usize::MAX {
        crate::text::dec_val(args[1])
    } else {
        0
    }
}

/// The pointer `mem free` uses: the second argument read as hex, or zero.
pub open spec fn free_addr_of(args: Seq<Seq<char>>) -> int {
    if args.len() >= 2 && crate::text::is_hex_str(crate::text::hex_body(args[1]))
        && crate::text::hex_val(crate::text::hex_body(args[1])) <= usize::MAX {
        crate::text::hex_val(crate::text::hex_body(args[1]))
    } else {
        0
    }
}

/// The line `mem alloc` reports: the size asked for and the address
/// handed out, or that no block fit.
pub open spec fn alloc_line(size: int, r: Option<int>) -> Seq<char> {
    "alloc("@ + dec_chars(size as nat) + "): "@ + match r {
        Some(addr) => "0x"@ + crate::text::hex_chars(addr as nat),
        None => "failed"@,
    }
}

/// The lines `mem info` prints: every block, then the free total.
pub open spec fn dump_lines(s: Seq<crate::heap::BlockModel>) -> Seq<Seq<char>> {
    Seq::new(s.len(), |i: int| crate::heap::block_line(s[i])).push(
        crate::heap::free_line(crate::heap::free_bytes(s)),
    )
}

/// What `mem` leaves behind: `info` dumps the accounting, `alloc` takes a
/// first-fit block and reports its address, `free` returns the block at
/// the given pointer — a zero or unparsable pointer is refused — `help`
/// (or no subcommand) prints the usage, and anything else prints the
/// usage and fails.
pub open spec fn mem_post(pre: Runtime, post: Runtime, args: Seq<Seq<char>>, status: i8) -> bool {
    if args.len() >= 1 && args[0] == "info"@ {
        &&& status == 0
        &&& console_appended(pre, post, dump_lines(pre.heap.view_blocks()))
    } else if args.len() >= 1 && args[0] == "alloc"@ {
        &&& status == 0
        &&& frame_but_store_heap(pre, post)
        &&& match crate::heap::alloc_step(
            pre.heap.view_blocks(),
            crate::heap::round_up(alloc_size_of(args)),
        ) {
            Some((h, addr)) => post.heap.view_blocks() == h && crate::runtime::store_console_appended(
                pre.store,
                post.store,
                seq![alloc_line(alloc_size_of(args), Some(addr))],
            ),
            None => post.heap.view_blocks() == pre.heap.view_blocks()
                && crate::runtime::store_console_appended(
                pre.store,
                post.store,
                seq![alloc_line(alloc_size_of(args), None::<int>)],
            ),
        }
    } else if args.len() >= 1 && args[0] == "free"@ {
        if free_addr_of(args) == 0 {
            &&& status == 1
            &&& console_appended(pre, post, seq!["Invalid value for pointer"@])
        } else {
            &&& status == 0
            &&& frame_but_store_heap(pre, post)
            &&& post.store.rows() == pre.store.rows()
            &&& match crate::heap::free_step(pre.heap.view_blocks(), free_addr_of(args)) {
                Some(h) => post.heap.view_blocks() == h,
                None => post.heap.view_blocks() == pre.heap.view_blocks(),
            }
        }
    } else if args.len() == 0 || args[0] == "help"@ {
        &&& status == 0
        &&& console_appended(pre, post, seq![mem_usage_line()])
    } else {
        &&& status == 1
        &&& console_appended(pre, post, seq![mem_usage_line()])
    }
}

/// The `log help` lines.
pub open spec fn log_help_lines() -> Seq<Seq<char>> {
    seq![
        "log help - Shows this message"@,
        "log / log list - Shows all modules"@,
        "log severity|s MOD VAL - Set max severity for module"@,
        "log level|l MOD VAL - Set max level for module"@,
        "log MOD SEV LVL - Set max severity & level for module"@,
        "log print|p SEV LVL ... - Print log message"@,
    ]
}

/// The lines `log list` prints, one per registered module.
pub open spec fn meta_list_lines(m: crate::log::ModuleMetaManager) -> Seq<Seq<char>> {
    Seq::new(
        m.rows().len(),
        |i: int| crate::log::meta_line(m.rows()[i].0, m.rows()[i].1, m.rows()[i].2),
    )
}

/// The `i`th argument, or the empty string.
pub open spec fn arg_or_empty(args: Seq<Seq<char>>, i: int) -> Seq<char> {
    if args.len() > i {
        args[i]
    } else {
        Seq::empty()
    }
}

/// The level a token names: the parsed number if it fits in a byte, else
/// zero.
pub open spec fn level_of_token(s: Seq<char>) -> u8 {
    if crate::text::is_dec_str(s) && crate::text::dec_val(s) <= 255 {
        crate::text::dec_val(s) as u8
    } else {
        0
    }
}

/// Every argument from `i` on, each with a trailing space.
pub open spec fn trail_join(args: Seq<Seq<char>>) -> Seq<char>
    decreases args.len(),
{
    if args.len() == 0 {
        Seq::empty()
    } else {
        args[0] + " "@ + trail_join(args.skip(1))
    }
}

/// Only the logger metadata changed, to `m`.
pub open spec fn meta_replaced(pre: Runtime, post: Runtime, m: crate::log::ModuleMetaManager) -> bool {
    &&& frame_but_store(pre, post)
    &&& crate::runtime::store_value_replaced(
        pre.store,
        post.store,
        crate::runtime::logger_meta_key(),
        crate::object::ObjectValue::LoggerMeta(m),
    )
    &&& post.meta() == m
}

/// The metadata gained exactly one (severity, level) write for `name`.
pub open spec fn meta_written(
    pre: Runtime,
    post: Runtime,
    name: Seq<char>,
    sev: crate::log::Severity,
    lvl: u8,
) -> bool {
    exists|m: crate::log::ModuleMetaManager|
        #[trigger] crate::log::ModuleMetaManager::set_post(pre.meta(), m, name, sev, lvl)
            && meta_replaced(pre, post, m)
}

/// What `log` leaves behind, subcommand by subcommand.
pub open spec fn log_post(pre: Runtime, post: Runtime, args: Seq<Seq<char>>, status: i8) -> bool {
    &&& status == 0
    &&& if args.len() >= 1 && args[0] == "help"@ {
        console_appended(pre, post, log_help_lines())
    } else if args.len() == 0 || args[0] == "list"@ {
        console_appended(pre, post, meta_list_lines(pre.meta()))
    } else if args[0] == "severity"@ || args[0] == "s"@ {
        meta_written(
            pre,
            post,
            arg_or_empty(args, 1),
            crate::log::severity_from_chars(arg_or_empty(args, 2)),
            if pre.meta().contains_module(arg_or_empty(args, 1)) {
                pre.meta().level_of(arg_or_empty(args, 1))
            } else {
                255
            },
        )
    } else if args[0] == "level"@ || args[0] == "l"@ {
        meta_written(
            pre,
            post,
            arg_or_empty(args, 1),
            if pre.meta().contains_module(arg_or_empty(args, 1)) {
                pre.meta().severity_of(arg_or_empty(args, 1))
            } else {
                crate::log::Severity::Trace
            },
            level_of_token(arg_or_empty(args, 2)),
        )
    } else if args[0] == "print"@ || args[0] == "p"@ {
        logged(
            pre,
            post,
            "shell"@,
            crate::log::severity_from_chars(arg_or_empty(args, 1)),
            level_of_token(arg_or_empty(args, 2)),
            trail_join(args.skip(1)),
        )
    } else if arg_or_empty(args, 1).len() == 0 && arg_or_empty(args, 2).len() == 0 {
        unchanged(pre, post)
    } else {
        meta_written(
            pre,
            post,
            args[0],
            crate::log::severity_from_chars(arg_or_empty(args, 1)),
            level_of_token(arg_or_empty(args, 2)),
        )
    }
}

/// What a dispatched command guarantees, by command.
pub open spec fn dispatch_post(
    shell: Shell,
    c: CommandId,
    pre: Runtime,
    post: Runtime,
    args: Seq<Seq<char>>,
    status: i8,
) -> bool {
    match c {
        CommandId::Help => help_post(shell, pre, post, args, status),
        CommandId::Echo => echo_post(pre, post, args, status),
        CommandId::Env => env_post(pre, post, args, status),
        CommandId::SetVar => set_post(pre, post, args, status),
        CommandId::Panic => panic_post(pre, post, args, status),
        CommandId::Crash => crash_post(pre, post, args, status),
        CommandId::Obj => obj_post(pre, post, args, status),
        CommandId::Mem => mem_post(pre, post, args, status),
        CommandId::Log => log_post(pre, post, args, status),
        CommandId::Time => time_post(pre, post, args, status),
        CommandId::Test => crate::harness::test_post(pre, post, args, status),
    }
}

/// Routes one found command to its handler.
pub fn dispatch(shell: &Shell, c: CommandId, rt: &mut Runtime, args: &Vec<String>) -> (status: i8)
    requires
        shell.wf(),
        old(rt).ready(),
    ensures
        final(rt).ready(),
        dispatch_post(*shell, c, *old(rt), *final(rt), args.deep_view(), status),
{
    match c {
        CommandId::Help => cmd_help(shell, rt, args),
        CommandId::Echo => cmd_echo(rt, args),
        CommandId::Env => cmd_env(rt, args),
        CommandId::SetVar => cmd_set(rt, args),
        CommandId::Panic => cmd_panic(rt, args),
        CommandId::Crash => cmd_crash(rt, args),
        CommandId::Obj => cmd_obj(rt, args),
        CommandId::Mem => cmd_mem(rt, args),
        CommandId::Log => cmd_log(rt, args),
        CommandId::Time => cmd_time(rt, args),
        CommandId::Test => crate::harness::cmd_test(rt, args),
    }
}

/// `help`: one line per command in the table.
pub fn cmd_help(shell: &Shell, rt: &mut Runtime, args: &Vec<String>) -> (status: i8)
    requires
        old(rt).ready(),
    ensures
        final(rt).ready(),
        help_post(*shell, *old(rt), *final(rt), args.deep_view(), status),
{
    let ghost expected = help_lines(shell.table());
    let mut lines: Vec<String> = Vec::new();
    let n = shell.commands.len();
    let mut i: usize = 0;
    proof {
        assert(lines.deep_view() =~= expected.take(0));
    }
    while i < n
        invariant
            n == shell.commands@.len(),
            i <= n,
            expected == help_lines(shell.table()),
            lines.deep_view() == expected.take(i as int),
        decreases n - i,
    {
        let mut line = shell.commands[i].name.clone();
        line.append(" - ");
        line.append(shell.commands[i].desc.as_str());
        proof {
            assert(shell.table()[i as int].0 == shell.commands@[i as int].name@);
            assert(line@ == expected[i as int]);
        }
        let ghost before = lines.deep_view();
        lines.push(line);
        proof {
            assert(lines.deep_view() =~= before.push(line@));
            assert(expected.take(i as int).push(expected[i as int]) =~= expected.take(
                i as int + 1,
            ));
        }
        i = i + 1;
    }
    proof {
        assert(lines.deep_view() =~= expected);
    }
    crate::runtime::print_lines(rt, lines);
    0
}

/// `echo`: the arguments, joined and printed.
pub fn cmd_echo(rt: &mut Runtime, args: &Vec<String>) -> (status: i8)
    requires
        old(rt).ready(),
    ensures
        final(rt).ready(),
        echo_post(*old(rt), *final(rt), args.deep_view(), status),
{
    let ghost dv = args.deep_view();
    let mut line = String::new();
    let n = args.len();
    let mut i: usize = 0;
    proof {
        assert(dv.take(0) =~= Seq::<Seq<char>>::empty());
    }
    while i < n
        invariant
            n == args@.len(),
            dv == args.deep_view(),
            i <= n,
            line@ == join_spaces(dv.take(i as int)),
        decreases n - i,
    {
        if i > 0 {
            line.append(" ");
        }
        line.append(args[i].as_str());
        proof {
            assert(args@[i as int]@ == dv[i as int]);
            assert(dv.take(i as int + 1) =~= dv.take(i as int).push(dv[i as int]));
            lemma_join_push(dv.take(i as int), dv[i as int]);
        }
        i = i + 1;
    }
    proof {
        assert(dv.take(n as int) =~= dv);
    }
    print_line(rt, line);
    0
}

/// `env`: one line per shell variable.
pub fn cmd_env(rt: &mut Runtime, args: &Vec<String>) -> (status: i8)
    requires
        old(rt).ready(),
    ensures
        final(rt).ready(),
        env_post(*old(rt), *final(rt), args.deep_view(), status),
{
    let ghost vs = vars_view(rt.vars@);
    let ghost expected = Seq::new(vs.len(), |i: int| var_line(vs[i].0, vs[i].1));
    let mut lines: Vec<String> = Vec::new();
    let n = rt.vars.len();
    let mut i: usize = 0;
    proof {
        assert(lines.deep_view() =~= expected.take(0));
    }
    while i < n
        invariant
            i <= n,
            n == rt.vars@.len(),
            vs == vars_view(rt.vars@),
            expected == Seq::new(vs.len(), |k: int| var_line(vs[k].0, vs[k].1)),
            lines.deep_view() == expected.take(i as int),
        decreases n - i,
    {
        let mut line = rt.vars[i].name.clone();
        line.append("=");
        line.append(rt.vars[i].value.as_str());
        proof {
            assert(vs[i as int] == (rt.vars@[i as int].name@, rt.vars@[i as int].value@));
            assert(line@ == expected[i as int]);
        }
        let ghost before = lines.deep_view();
        lines.push(line);
        proof {
            assert(lines.deep_view() =~= before.push(line@));
            assert(expected.take(i as int).push(expected[i as int]) =~= expected.take(
                i as int + 1,
            ));
        }
        i = i + 1;
    }
    proof {
        assert(lines.deep_view() =~= expected);
    }
    crate::runtime::print_lines(rt, lines);
    0
}

/// `set NAME VALUE`: writes one shell variable.
pub fn cmd_set(rt: &mut Runtime, args: &Vec<String>) -> (status: i8)
    requires
        old(rt).ready(),
    ensures
        final(rt).ready(),
        set_post(*old(rt), *final(rt), args.deep_view(), status),
{
    let ghost dv = args.deep_view();
    if args.len() < 2 {
        print_str(rt, "set NAME VALUE");
        return 1;
    }
    let ghost pre = *rt;
    let ghost vs = vars_view(pre.vars@);
    let n = rt.vars.len();
    let mut i: usize = 0;
    while i < n
        invariant_except_break
            n == rt.vars@.len(),
            i <= n,
            *rt == pre,
            vs == vars_view(pre.vars@),
            dv == args.deep_view(),
            dv.len() >= 2,
            args@.len() >= 1,
            var_find(vs, 0, dv[0]) == var_find(vs, i as int, dv[0]),
        ensures
            *rt == pre,
            n == rt.vars@.len(),
            vs == vars_view(pre.vars@),
            dv == args.deep_view(),
            i <= n,
            if i < n {
                var_find(vs, 0, dv[0]) == i && vs[i as int].0 == dv[0]
            } else {
                var_find(vs, 0, dv[0]) == -1
            },
        decreases n - i,
    {
        proof {
            assert(vs[i as int].0 == rt.vars@[i as int].name@);
        }
        if crate::text::str_eq(rt.vars[i].name.as_str(), args[0].as_str()) {
            proof {
                assert(args@[0]@ == dv[0]);
            }
            break;
        }
        proof {
            assert(args@[0]@ == dv[0]);
        }
        i = i + 1;
    }
    if i < n {
        let value = args[1].clone();
        let e = &mut rt.vars[i];
        e.value = value;
        proof {
            assert(args@[1]@ == dv[1]);
            assert(vars_view(rt.vars@) =~= vs.update(i as int, (dv[0], dv[1])));
        }
    } else {
        let name = args[0].clone();
        let value = args[1].clone();
        rt.vars.push(VarEntry { name, value });
        proof {
            assert(args@[0]@ == dv[0]);
            assert(args@[1]@ == dv[1]);
            assert(vars_view(rt.vars@) =~= vs.push((dv[0], dv[1])));
        }
    }
    0
}

/// `panic [msg]`: raises the fatal-error path with the given or the
/// default message, to validate the recovery pipeline end to end.
pub fn cmd_panic(rt: &mut Runtime, args: &Vec<String>) -> (status: i8)
    requires
        old(rt).ready(),
    ensures
        final(rt).ready(),
        panic_post(*old(rt), *final(rt), args.deep_view(), status),
{
    let ghost pre = *rt;
    proof {
        crate::runtime::lemma_keys_distinct();
    }
    if args.len() > 0 {
        proof {
            assert(args@[0]@ == args.deep_view()[0]);
        }
        crate::runtime::panic_report(rt, args[0].as_str(), None);
    } else {
        crate::runtime::panic_report(rt, "Manual panic", None);
    }
    proof {
        let ci = pre.store.index_of(crate::runtime::console_key());
        let mi = pre.store.index_of(crate::runtime::logger_meta_key());
        let ti = pre.store.index_of(crate::runtime::time_key());
        crate::object::ObjectStore::lemma_row_lookup(pre.store, mi);
        crate::object::ObjectStore::lemma_row_lookup(pre.store, ti);
        assert(rt.store.rows()[mi].key == crate::runtime::logger_meta_key());
        assert(rt.store.rows()[ti].key == crate::runtime::time_key());
        crate::object::ObjectStore::lemma_row_lookup(rt.store, mi);
        crate::object::ObjectStore::lemma_row_lookup(rt.store, ti);
    }
    0
}

/// `crash`: asks the registry for the fault-trigger dispatch and hands it
/// to the board; with no handler registered, nothing happens.
pub fn cmd_crash(rt: &mut Runtime, args: &Vec<String>) -> (status: i8)
    requires
        old(rt).ready(),
    ensures
        final(rt).ready(),
        crash_post(*old(rt), *final(rt), args.deep_view(), status),
{
    let d = rt.board.callback(Callback::TriggerCrash);
    match d {
        Some(inv) => {
            rt.pending.push(inv);
        }
        None => {}
    }
    0
}

/// `obj [list]`: lists every object key.
pub fn cmd_obj(rt: &mut Runtime, args: &Vec<String>) -> (status: i8)
    requires
        old(rt).ready(),
    ensures
        final(rt).ready(),
        obj_post(*old(rt), *final(rt), args.deep_view(), status),
{
    let ghost dv = args.deep_view();
    let list = if args.len() == 0 {
        true
    } else {
        proof {
            assert(args@[0]@ == dv[0]);
        }
        crate::text::str_eq(args[0].as_str(), "list")
    };
    if !list {
        let mut msg = String::new();
        msg.append("Unknown subcommand: ");
        msg.append(args[0].as_str());
        print_line(rt, msg);
        return 1;
    }
    let ghost expected = obj_list_lines(rt.store.rows());
    let ks = rt.store.keys();
    let mut lines: Vec<String> = Vec::new();
    let n = ks.len();
    let mut i: usize = 0;
    proof {
        assert(lines.deep_view() =~= expected.take(0));
    }
    while i < n
        invariant
            i <= n,
            n == ks@.len(),
            n == rt.store.rows().len(),
            forall|j: int| 0 <= j < n ==> #[trigger] ks.deep_view()[j] == rt.store.rows()[j].key,
            expected == obj_list_lines(rt.store.rows()),
            lines.deep_view() == expected.take(i as int),
        decreases n - i,
    {
        let mut line = String::new();
        line.append("  ");
        line.append(ks[i].as_str());
        proof {
            assert(ks@[i as int]@ == ks.deep_view()[i as int]);
            assert(line@ == expected[i as int]);
        }
        let ghost before = lines.deep_view();
        lines.push(line);
        proof {
            assert(lines.deep_view() =~= before.push(line@));
            assert(expected.take(i as int).push(expected[i as int]) =~= expected.take(
                i as int + 1,
            ));
        }
        i = i + 1;
    }
    proof {
        assert(lines.deep_view() =~= expected);
    }
    crate::runtime::print_lines(rt, lines);
    0
}

/// `mem info|alloc <size>|free <addr>`: reads or exercises the heap
/// accounting. An unparsable size reads as zero rather than failing; a
/// zero pointer is refused.
pub fn cmd_mem(rt: &mut Runtime, args: &Vec<String>) -> (status: i8)
    requires
        old(rt).ready(),
    ensures
        final(rt).ready(),
        mem_post(*old(rt), *final(rt), args.deep_view(), status),
{
    let ghost dv = args.deep_view();
    let ghost pre = *rt;
    if args.len() >= 1 {
        proof {
            assert(args@[0]@ == dv[0]);
        }
        if crate::text::str_eq(args[0].as_str(), "info") {
            let lines = rt.heap.dump();
            proof {
                assert(lines.deep_view() =~= dump_lines(pre.heap.view_blocks()));
            }
            crate::runtime::print_lines(rt, lines);
            return 0;
        }
        if crate::text::str_eq(args[0].as_str(), "alloc") {
            let size: usize = if args.len() >= 2 {
                proof {
                    assert(args@[1]@ == dv[1]);
                }
                match crate::text::parse_dec(args[1].as_str()) {
                    Some(v) => v,
                    None => 0,
                }
            } else {
                0
            };
            proof {
                assert(size as int == alloc_size_of(dv));
            }
            let r = rt.heap.allocate(size);
            let mut line = String::new();
            line.append("alloc(");
            let size_str = crate::text::fmt_dec(size as u64);
            line.append(size_str.as_str());
            line.append("): ");
            match r {
                Some(addr) => {
                    line.append("0x");
                    let addr_str = crate::text::fmt_hex(addr as u64);
                    line.append(addr_str.as_str());
                    proof {
                        assert(line@ == alloc_line(alloc_size_of(dv), Some(addr as int)));
                    }
                }
                None => {
                    line.append("failed");
                    proof {
                        assert(line@ == alloc_line(alloc_size_of(dv), None::<int>));
                    }
                }
            }
            print_line(rt, line);
            return 0;
        }
        if crate::text::str_eq(args[0].as_str(), "free") {
            let addr: usize = if args.len() >= 2 {
                proof {
                    assert(args@[1]@ == dv[1]);
                }
                match crate::text::parse_hex(args[1].as_str()) {
                    Some(v) => v,
                    None => 0,
                }
            } else {
                0
            };
            proof {
                assert(addr as int == free_addr_of(dv));
            }
            if addr == 0 {
                print_str(rt, "Invalid value for pointer");
                return 1;
            }
            let _freed = rt.heap.free(addr);
            return 0;
        }
    }
    let rc: i8 = if args.len() == 0 {
        0
    } else {
        proof {
            assert(args@[0]@ == dv[0]);
        }
        if crate::text::str_eq(args[0].as_str(), "help") {
            0
        } else {
            1
        }
    };
    print_str(rt, "mem [help|info|alloc|free]");
    rc
}

proof fn lemma_trail_join_push(args: Seq<Seq<char>>, x: Seq<char>)
    ensures
        trail_join(args.push(x)) == trail_join(args) + x + " "@,
    decreases args.len(),
{
    let p = args.push(x);
    if args.len() == 0 {
        assert(p.len() == 1);
        assert(p[0] == x);
        assert(p.skip(1) =~= Seq::<Seq<char>>::empty());
        assert(trail_join(p.skip(1)) == Seq::<char>::empty());
        assert(trail_join(p) =~= trail_join(args) + x + " "@);
    } else {
        assert(p[0] == args[0]);
        assert(p.skip(1) =~= args.skip(1).push(x));
        lemma_trail_join_push(args.skip(1), x);
        assert(args[0] + " "@ + (trail_join(args.skip(1)) + x + " "@) =~= (args[0] + " "@
            + trail_join(args.skip(1))) + x + " "@);
    }
}

/// `log list|severity|level|print|MOD SEV LVL`: reads and rewrites the
/// per-module logger metadata, or emits an ad-hoc log line.
pub fn cmd_log(rt: &mut Runtime, args: &Vec<String>) -> (status: i8)
    requires
        old(rt).ready(),
    ensures
        final(rt).ready(),
        log_post(*old(rt), *final(rt), args.deep_view(), status),
{
    let ghost dv = args.deep_view();
    let ghost pre = *rt;
    proof {
        crate::runtime::lemma_keys_distinct();
        reveal_strlit("");
        assert(""@ =~= Seq::<char>::empty());
        if dv.len() >= 1 {
            assert(args@[0]@ == dv[0]);
        }
    }
    if args.len() >= 1 && crate::text::str_eq(args[0].as_str(), "help") {
        let ghost expected = log_help_lines();
        proof {
            lemma_console_appended_refl(pre);
        }
        print_str(rt, "log help - Shows this message");
        let ghost mid1 = *rt;
        print_str(rt, "log / log list - Shows all modules");
        let ghost mid2 = *rt;
        print_str(rt, "log severity|s MOD VAL - Set max severity for module");
        let ghost mid3 = *rt;
        print_str(rt, "log level|l MOD VAL - Set max level for module");
        let ghost mid4 = *rt;
        print_str(rt, "log MOD SEV LVL - Set max severity & level for module");
        let ghost mid5 = *rt;
        print_str(rt, "log print|p SEV LVL ... - Print log message");
        proof {
            assert(expected.take(1) =~= seq![expected[0]]);
            lemma_console_appended_trans(pre, mid1, mid2, expected.take(1), seq![expected[1]]);
            assert(expected.take(1) + seq![expected[1]] =~= expected.take(2));
            lemma_console_appended_trans(pre, mid2, mid3, expected.take(2), seq![expected[2]]);
            assert(expected.take(2) + seq![expected[2]] =~= expected.take(3));
            lemma_console_appended_trans(pre, mid3, mid4, expected.take(3), seq![expected[3]]);
            assert(expected.take(3) + seq![expected[3]] =~= expected.take(4));
            lemma_console_appended_trans(pre, mid4, mid5, expected.take(4), seq![expected[4]]);
            assert(expected.take(4) + seq![expected[4]] =~= expected.take(5));
            lemma_console_appended_trans(pre, mid5, *rt, expected.take(5), seq![expected[5]]);
            assert(expected.take(5) + seq![expected[5]] =~= expected);
        }
        return 0;
    }
    let list = if args.len() == 0 {
        true
    } else {
        crate::text::str_eq(args[0].as_str(), "list")
    };
    if list {
        let mkey = crate::runtime::logger_meta_key_str();
        let r = rt.store.checkout(mkey);
        let lines = match r {
            Ok(g) => {
                proof {
                    let mi = pre.store.index_of(crate::runtime::logger_meta_key());
                    assert(rt.store.rows()[mi].value == pre.store.value_of(
                        crate::runtime::logger_meta_key(),
                    ));
                }
                let m = rt.store.meta_mut(&g);
                let lines = m.format_lines();
                rt.store.checkin(g);
                proof {
                    let v = pre.store.value_of(crate::runtime::logger_meta_key());
                    assert(v == crate::object::ObjectValue::LoggerMeta(v.as_meta()));
                    assert(rt.store.rows() =~= pre.store.rows());
                }
                lines
            }
            Err(_) => {
                proof {
                    assert(false);
                }
                Vec::new()
            }
        };
        proof {
            assert(lines.deep_view() =~= meta_list_lines(pre.meta()));
            lemma_unchanged_is_empty_append(pre, *rt);
        }
        let ghost mid = *rt;
        let ghost expected = meta_list_lines(pre.meta());
        crate::runtime::print_lines(rt, lines);
        proof {
            lemma_console_appended_trans(
                pre,
                mid,
                *rt,
                Seq::<Seq<char>>::empty(),
                expected,
            );
            assert(Seq::<Seq<char>>::empty() + expected =~= expected);
        }
        return 0;
    }
    let is_sev = crate::text::str_eq(args[0].as_str(), "severity") || crate::text::str_eq(
        args[0].as_str(),
        "s",
    );
    let is_lvl = if is_sev {
        false
    } else {
        crate::text::str_eq(args[0].as_str(), "level") || crate::text::str_eq(
            args[0].as_str(),
            "l",
        )
    };
    let is_print = if is_sev || is_lvl {
        false
    } else {
        crate::text::str_eq(args[0].as_str(), "print") || crate::text::str_eq(
            args[0].as_str(),
            "p",
        )
    };
    if is_sev || is_lvl {
        let module: &str = if args.len() > 1 {
            proof {
                assert(args@[1]@ == dv[1]);
            }
            args[1].as_str()
        } else {
            ""
        };
        let value: &str = if args.len() > 2 {
            proof {
                assert(args@[2]@ == dv[2]);
            }
            args[2].as_str()
        } else {
            ""
        };
        proof {
            assert(module@ == arg_or_empty(dv, 1));
            assert(value@ == arg_or_empty(dv, 2));
        }
        let mkey = crate::runtime::logger_meta_key_str();
        let r = rt.store.checkout(mkey);
        match r {
            Ok(g) => {
                proof {
                    let mi = pre.store.index_of(crate::runtime::logger_meta_key());
                    assert(rt.store.rows()[mi].value == pre.store.value_of(
                        crate::runtime::logger_meta_key(),
                    ));
                }
                let m = rt.store.meta_mut(&g);
                if is_sev {
                    let sev = crate::log::Severity::parse(value);
                    m.set_severity(module, sev);
                } else {
                    let lvl: u8 = match crate::text::parse_dec(value) {
                        Some(v) => if v <= 255 {
                            v as u8
                        } else {
                            0
                        },
                        None => 0,
                    };
                    proof {
                        assert(lvl == level_of_token(arg_or_empty(dv, 2)));
                    }
                    m.set_level(module, lvl);
                }
                rt.store.checkin(g);
                proof {
                    let mi = pre.store.index_of(crate::runtime::logger_meta_key());
                    let e = EntryModel {
                        key: crate::runtime::logger_meta_key(),
                        value: rt.store.rows()[mi].value,
                        borrowed: false,
                    };
                    assert(rt.store.rows() =~= pre.store.rows().update(mi, e));
                    crate::object::ObjectStore::lemma_update_keeps_lookups(
                        pre.store,
                        rt.store,
                        mi,
                        e,
                    );
                    assert(e.value == crate::object::ObjectValue::LoggerMeta(e.value.as_meta()));
                }
            }
            Err(_) => {
                proof {
                    assert(false);
                }
            }
        }
        return 0;
    }
    if is_print {
        let sev_tok: &str = if args.len() > 1 {
            proof {
                assert(args@[1]@ == dv[1]);
            }
            args[1].as_str()
        } else {
            ""
        };
        let lvl_tok: &str = if args.len() > 2 {
            proof {
                assert(args@[2]@ == dv[2]);
            }
            args[2].as_str()
        } else {
            ""
        };
        let sev = crate::log::Severity::parse(sev_tok);
        let lvl: u8 = match crate::text::parse_dec(lvl_tok) {
            Some(v) => if v <= 255 {
                v as u8
            } else {
                0
            },
            None => 0,
        };
        let ghost rest = dv.skip(1);
        let mut buf = String::new();
        let n = args.len();
        let mut i: usize = 1;
        proof {
            assert(rest.take(0) =~= Seq::<Seq<char>>::empty());
        }
        while i < n
            invariant
                1 <= i <= n,
                n == args@.len(),
                dv == args.deep_view(),
                rest == dv.skip(1),
                buf@ == trail_join(rest.take(i - 1)),
            decreases n - i,
        {
            proof {
                assert(args@[i as int]@ == dv[i as int]);
                assert(rest[i - 1] == dv[i as int]);
            }
            buf.append(args[i].as_str());
            buf.append(" ");
            proof {
                assert(rest.take(i as int) =~= rest.take(i - 1).push(rest[i - 1]));
                lemma_trail_join_push(rest.take(i - 1), rest[i - 1]);
            }
            i = i + 1;
        }
        proof {
            assert(rest.take(n - 1) =~= rest);
        }
        crate::runtime::log_line(rt, "shell", sev, lvl, buf.as_str());
        return 0;
    }
    let sevs: &str = if args.len() > 1 {
        proof {
            assert(args@[1]@ == dv[1]);
        }
        args[1].as_str()
    } else {
        ""
    };
    let levs: &str = if args.len() > 2 {
        proof {
            assert(args@[2]@ == dv[2]);
        }
        args[2].as_str()
    } else {
        ""
    };
    if sevs.is_empty() && levs.is_empty() {
        return 0;
    }
    let sev = crate::log::Severity::parse(sevs);
    let lvl: u8 = match crate::text::parse_dec(levs) {
        Some(v) => if v <= 255 {
            v as u8
        } else {
            0
        },
        None => 0,
    };
    let mkey = crate::runtime::logger_meta_key_str();
    let r = rt.store.checkout(mkey);
    match r {
        Ok(g) => {
            proof {
                let mi = pre.store.index_of(crate::runtime::logger_meta_key());
                assert(rt.store.rows()[mi].value == pre.store.value_of(
                    crate::runtime::logger_meta_key(),
                ));
            }
            let m = rt.store.meta_mut(&g);
            m.register(args[0].as_str(), sev, lvl);
            rt.store.checkin(g);
            proof {
                let mi = pre.store.index_of(crate::runtime::logger_meta_key());
                let e = EntryModel {
                    key: crate::runtime::logger_meta_key(),
                    value: rt.store.rows()[mi].value,
                    borrowed: false,
                };
                assert(rt.store.rows() =~= pre.store.rows().update(mi, e));
                crate::object::ObjectStore::lemma_update_keeps_lookups(pre.store, rt.store, mi, e);
                assert(e.value == crate::object::ObjectValue::LoggerMeta(e.value.as_meta()));
            }
        }
        Err(_) => {
            proof {
                assert(false);
            }
        }
    }
    0
}

/// `time`: logs the current global tick.
pub fn cmd_time(rt: &mut Runtime, args: &Vec<String>) -> (status: i8)
    requires
        old(rt).ready(),
    ensures
        final(rt).ready(),
        time_post(*old(rt), *final(rt), args.deep_view(), status),
{
    let ghost pre = *rt;
    let t = crate::runtime::read_tick(rt);
    let mut text = String::new();
    text.append("tick: ");
    let t_str = crate::text::fmt_dec(t as u64);
    text.append(t_str.as_str());
    crate::runtime::log_line(rt, "shell", crate::log::Severity::Info, 0, text.as_str());
    0
}

/// Builds the standard table: the shell builtins and the application
/// commands, dispatched alike.
pub fn create_shell() -> (s: Shell)
    ensures
        s.wf(),
        s.table().len() == 11,
        s.knows("help"@) && s.command_of("help"@) == CommandId::Help,
        s.knows("echo"@) && s.command_of("echo"@) == CommandId::Echo,
        s.knows("env"@) && s.command_of("env"@) == CommandId::Env,
        s.knows("set"@) && s.command_of("set"@) == CommandId::SetVar,
        s.knows("panic"@) && s.command_of("panic"@) == CommandId::Panic,
        s.knows("crash"@) && s.command_of("crash"@) == CommandId::Crash,
        s.knows("test"@) && s.command_of("test"@) == CommandId::Test,
        s.knows("obj"@) && s.command_of("obj"@) == CommandId::Obj,
        s.knows("mem"@) && s.command_of("mem"@) == CommandId::Mem,
        s.knows("log"@) && s.command_of("log"@) == CommandId::Log,
        s.knows("time"@) && s.command_of("time"@) == CommandId::Time,
{
    let mut s = Shell::new();
    proof {
        lemma_command_names_distinct();
    }
    s.add("help", "Prints help", CommandId::Help);
    s.add("echo", "Echo args", CommandId::Echo);
    s.add("env", "Prints env vars", CommandId::Env);
    s.add("set", "Set env var val", CommandId::SetVar);
    s.add("panic", "Trigger a panic", CommandId::Panic);
    s.add("crash", "Trigger a crash", CommandId::Crash);
    s.add("test", "Run Tests", CommandId::Test);
    s.add("obj", "Object storage", CommandId::Obj);
    s.add("mem", "Memory control", CommandId::Mem);
    s.add("log", "Logging control", CommandId::Log);
    s.add("time", "Get tick", CommandId::Time);
    proof {
        lemma_table_lookup(s, 0);
        lemma_table_lookup(s, 1);
        lemma_table_lookup(s, 2);
        lemma_table_lookup(s, 3);
        lemma_table_lookup(s, 4);
        lemma_table_lookup(s, 5);
        lemma_table_lookup(s, 6);
        lemma_table_lookup(s, 7);
        lemma_table_lookup(s, 8);
        lemma_table_lookup(s, 9);
        lemma_table_lookup(s, 10);
    }
    s
}

/// The default command names never collide.
proof fn lemma_command_names_distinct()
    ensures
        "help"@ != "echo"@ && "help"@ != "env"@ && "help"@ != "set"@ && "help"@ != "panic"@
            && "help"@ != "crash"@ && "help"@ != "obj"@ && "help"@ != "time"@,
        "echo"@ != "env"@ && "echo"@ != "set"@ && "echo"@ != "panic"@ && "echo"@ != "crash"@
            && "echo"@ != "obj"@ && "echo"@ != "time"@,
        "env"@ != "set"@ && "env"@ != "panic"@ && "env"@ != "crash"@ && "env"@ != "obj"@
            && "env"@ != "time"@,
        "set"@ != "panic"@ && "set"@ != "crash"@ && "set"@ != "obj"@ && "set"@ != "time"@,
        "panic"@ != "crash"@ && "panic"@ != "obj"@ && "panic"@ != "time"@,
        "crash"@ != "obj"@ && "crash"@ != "time"@,
        "obj"@ != "time"@,
        "mem"@ != "help"@ && "mem"@ != "echo"@ && "mem"@ != "env"@ && "mem"@ != "set"@
            && "mem"@ != "panic"@ && "mem"@ != "crash"@ && "mem"@ != "obj"@ && "mem"@ != "time"@,
        "log"@ != "help"@ && "log"@ != "echo"@ && "log"@ != "env"@ && "log"@ != "set"@
            && "log"@ != "panic"@ && "log"@ != "crash"@ && "log"@ != "obj"@ && "log"@ != "time"@,
        "mem"@ != "log"@,
        "test"@ != "help"@ && "test"@ != "echo"@ && "test"@ != "env"@ && "test"@ != "set"@
            && "test"@ != "panic"@ && "test"@ != "crash"@ && "test"@ != "obj"@
            && "test"@ != "mem"@ && "test"@ != "log"@ && "test"@ != "time"@,
{
    reveal_strlit("help");
    reveal_strlit("echo");
    reveal_strlit("env");
    reveal_strlit("set");
    reveal_strlit("panic");
    reveal_strlit("crash");
    reveal_strlit("obj");
    reveal_strlit("time");
    assert("help"@.len() == 4);
    assert("echo"@.len() == 4);
    assert("env"@.len() == 3);
    assert("set"@.len() == 3);
    assert("panic"@.len() == 5);
    assert("crash"@.len() == 5);
    assert("obj"@.len() == 3);
    assert("time"@.len() == 4);
    assert("help"@[0] != "echo"@[0]);
    assert("help"@[0] != "time"@[0]);
    assert("echo"@[0] != "time"@[0]);
    assert("env"@[0] != "set"@[0]);
    assert("env"@[0] != "obj"@[0]);
    assert("set"@[0] != "obj"@[0]);
    assert("panic"@[0] != "crash"@[0]);
    reveal_strlit("mem");
    reveal_strlit("log");
    assert("mem"@.len() == 3);
    assert("log"@.len() == 3);
    assert("mem"@[0] != "env"@[0]);
    assert("mem"@[0] != "set"@[0]);
    assert("mem"@[0] != "obj"@[0]);
    assert("mem"@[0] != "log"@[0]);
    assert("log"@[0] != "env"@[0]);
    assert("log"@[0] != "set"@[0]);
    assert("log"@[0] != "obj"@[0]);
    reveal_strlit("test");
    assert("test"@.len() == 4);
    assert("test"@[0] != "help"@[0]);
    assert("test"@[0] != "echo"@[0]);
    assert("test"@[1] != "time"@[1]);
}

/// With unique names, row `i`'s name looks up row `i`'s action.
proof fn lemma_table_lookup(s: Shell, i: int)
    requires
        s.wf(),
        0 <= i < s.table().len(),
    ensures
        s.knows(s.table()[i].0),
        s.command_of(s.table()[i].0) == s.table()[i].2,
{
    assert(s.knows(s.table()[i].0));
    let k = choose|k: int|
        0 <= k < s.table().len() && (#[trigger] s.table()[k]).0 == s.table()[i].0;
    if k != i {
        assert(false);
    }
}

} // verus!
