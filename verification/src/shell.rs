//! The command shell: a table of named commands, a tokenizer-driven
//! dispatcher, and the polling cycle the board's main loop runs. A line's
//! first token picks the command; the rest are its arguments. An unknown
//! command is reported and answered with a failing status, and the shell
//! keeps running.

use vstd::prelude::*;

use crate::cmd::CommandId;
use crate::runtime::console_appended;
use crate::runtime::print_line;
use crate::runtime::unchanged;
use crate::runtime::Runtime;
use crate::text::tokens_of;

verus! {

/// One command: its name, a line of help text, and what it does.
pub struct CommandEntry {
    pub name: String,
    pub desc: String,
    pub action: CommandId,
}

/// The dispatch table.
pub struct Shell {
    pub commands: Vec<CommandEntry>,
}

/// The diagnostic an unknown command gets.
pub open spec fn unknown_command_line(name: Seq<char>) -> Seq<char> {
    "Unknown command: "@ + name
}

impl Shell {
    /// The table as (name, description, action) rows.
    pub open spec fn table(self) -> Seq<(Seq<char>, Seq<char>, CommandId)> {
        Seq::new(
            self.commands@.len(),
            |i: int|
                (
                    self.commands@[i].name@,
                    self.commands@[i].desc@,
                    self.commands@[i].action,
                ),
        )
    }

    /// Command names are unique within a table.
    pub open spec fn wf(self) -> bool {
        forall|i: int, j: int|
            0 <= i < j < self.table().len() ==> (#[trigger] self.table()[i]).0 != (
            #[trigger] self.table()[j]).0
    }

    pub open spec fn knows(self, name: Seq<char>) -> bool {
        exists|i: int| 0 <= i < self.table().len() && (#[trigger] self.table()[i]).0 == name
    }

    /// The action registered under `name`.
    pub open spec fn command_of(self, name: Seq<char>) -> CommandId {
        self.table()[choose|i: int|
            0 <= i < self.table().len() && (#[trigger] self.table()[i]).0 == name].2
    }

    pub fn new() -> (s: Shell)
        ensures
            s.wf(),
            s.table() =~= Seq::<(Seq<char>, Seq<char>, CommandId)>::empty(),
    {
        Shell { commands: Vec::new() }
    }

    /// Registers a command; the caller keeps names unique.
    pub fn add(&mut self, name: &str, desc: &str, action: CommandId)
        requires
            old(self).wf(),
            !old(self).knows(name@),
        ensures
            final(self).wf(),
            final(self).table() == old(self).table().push((name@, desc@, action)),
    {
        let e = CommandEntry { name: name.to_owned(), desc: desc.to_owned(), action };
        let ghost pre = self.table();
        self.commands.push(e);
        proof {
            let n = pre.len() as int;
            assert(self.table() =~= pre.push((name@, desc@, action)));
            assert forall|i: int, j: int|
                0 <= i < j < self.table().len() implies (#[trigger] self.table()[i]).0 != (
            #[trigger] self.table()[j]).0 by {
                if j < n {
                    assert(old(self).table()[i].0 != old(self).table()[j].0);
                } else {
                    assert(self.table()[i].0 == pre[i].0);
                }
            }
        }
    }

    fn find(&self, name: &str) -> (r: Option<CommandId>)
        requires
            self.wf(),
        ensures
            match r {
                Some(c) => self.knows(name@) && c == self.command_of(name@),
                None => !self.knows(name@),
            },
    {
        let mut i: usize = 0;
        let n = self.commands.len();
        while i < n
            invariant
                self.wf(),
                n == self.commands@.len(),
                i <= n,
                forall|j: int| 0 <= j < i ==> (#[trigger] self.table()[j]).0 != name@,
            decreases n - i,
        {
            if crate::text::str_eq(self.commands[i].name.as_str(), name) {
                proof {
                    assert(self.table()[i as int].0 == name@);
                    assert(self.knows(name@));
                    let k = choose|k: int|
                        0 <= k < self.table().len() && (#[trigger] self.table()[k]).0 == name@;
                    if k != i {
                        assert(false);
                    }
                }
                return Some(self.commands[i].action);
            }
            proof {
                assert(self.table()[i as int].0 == self.commands@[i as int].name@);
            }
            i = i + 1;
        }
        None
    }

    /// What one executed line does: an empty line is a no-op, a known
    /// first token runs its command on the remaining tokens, and an
    /// unknown one is reported with a failing status and no other change.
    pub open spec fn run_post(
        self,
        pre: Runtime,
        post: Runtime,
        line: Seq<char>,
        status: i8,
    ) -> bool {
        let toks = tokens_of(line);
        if toks.len() == 0 {
            unchanged(pre, post) && status == 0
        } else if self.knows(toks[0]) {
            crate::cmd::dispatch_post(self, self.command_of(toks[0]), pre, post, toks.skip(1), status)
        } else {
            status == 1 && console_appended(pre, post, seq![unknown_command_line(toks[0])])
        }
    }

    /// Executes one command line immediately.
    pub fn run(&self, rt: &mut Runtime, line: &str) -> (status: i8)
        requires
            self.wf(),
            old(rt).ready(),
        ensures
            final(rt).ready(),
            self.run_post(*old(rt), *final(rt), line@, status),
    {
        let toks = crate::text::tokenize(line);
        if toks.len() == 0 {
            return 0;
        }
        let found = self.find(toks[0].as_str());
        match found {
            None => {
                let mut msg = String::new();
                msg.append("Unknown command: ");
                msg.append(toks[0].as_str());
                print_line(rt, msg);
                1
            }
            Some(c) => {
                let mut args: Vec<String> = Vec::new();
                let mut i: usize = 1;
                while i < toks.len()
                    invariant
                        1 <= i <= toks@.len(),
                        args.deep_view() =~= toks.deep_view().subrange(1, i as int),
                    decreases toks@.len() - i,
                {
                    let ghost before = args.deep_view();
                    let s = toks[i].clone();
                    proof {
                        assert(s@ == toks@[i as int]@);
                    }
                    args.push(s);
                    proof {
                        assert(args.deep_view() =~= before.push(toks.deep_view()[i as int]));
                        assert(args.deep_view() =~= toks.deep_view().subrange(1, i + 1));
                    }
                    i = i + 1;
                }
                proof {
                    assert(args.deep_view() =~= tokens_of(line@).skip(1));
                }
                crate::cmd::dispatch(self, c, rt, &args)
            }
        }
    }
}

/// The oldest pending console input line was taken; nothing else moved.
pub open spec fn console_input_taken(pre: Runtime, post: Runtime) -> bool {
    &&& crate::runtime::frame_but_store(pre, post)
    &&& pre.console_in().len() > 0
    &&& crate::runtime::store_value_replaced(
        pre.store,
        post.store,
        crate::runtime::console_key(),
        post.store.rows()[pre.store.index_of(crate::runtime::console_key())].value,
    )
    &&& post.store.value_of(crate::runtime::console_key()).kind()
        == crate::object::ObjectKind::Tty
    &&& post.console_out() == pre.console_out()
    &&& post.console_in() == pre.console_in().skip(1)
}

/// The line the shell prints to report a failing status.
pub open spec fn exit_line(status: i8) -> Seq<char> {
    if status >= 0 {
        "exit: "@ + crate::text::dec_chars(status as nat)
    } else {
        "exit: -"@ + crate::text::dec_chars((-(status as int)) as nat)
    }
}

impl Shell {
    /// What one polling cycle does: with no input pending, nothing; with
    /// a line pending, the line is taken and executed, and a failing
    /// status is reported to the console. The shell itself never stops.
    pub open spec fn cycle_post(
        self,
        pre: Runtime,
        post: Runtime,
        r: Option<i8>,
    ) -> bool {
        if pre.console_in().len() == 0 {
            unchanged(pre, post) && r == None::<i8>
        } else {
            exists|st: i8, mid1: Runtime, mid2: Runtime|
                {
                    &&& r == Some(st)
                    &&& #[trigger] console_input_taken(pre, mid1)
                    &&& #[trigger] self.run_post(mid1, mid2, pre.console_in()[0], st)
                    &&& if st == 0 {
                        unchanged(mid2, post)
                    } else {
                        console_appended(mid2, post, seq![exit_line(st)])
                    }
                }
        }
    }

    /// One unit of shell work: poll for an input line, run it, report a
    /// failing status.
    pub fn cycle(&self, rt: &mut Runtime) -> (r: Option<i8>)
        requires
            self.wf(),
            old(rt).ready(),
        ensures
            final(rt).ready(),
            self.cycle_post(*old(rt), *final(rt), r),
    {
        let ghost pre = *rt;
        let key = crate::runtime::console_key_str();
        let cr = rt.store.checkout(key);
        let taken: Option<String> = match cr {
            Ok(g) => {
                let t = rt.store.tty_mut(&g);
                let line = t.read_line();
                rt.store.checkin(g);
                line
            }
            Err(_) => {
                proof {
                    assert(false);
                }
                None
            }
        };
        let ghost mid1 = *rt;
        proof {
            let ci = pre.store.index_of(crate::runtime::console_key());
            let e = crate::object::EntryModel {
                key: crate::runtime::console_key(),
                value: rt.store.rows()[ci].value,
                borrowed: false,
            };
            assert(rt.store.rows() =~= pre.store.rows().update(ci, e));
            crate::object::ObjectStore::lemma_update_keeps_lookups(pre.store, rt.store, ci, e);
        }
        match taken {
            None => {
                proof {
                    assert(rt.store.rows() =~= pre.store.rows());
                }
                None
            }
            Some(line) => {
                proof {
                    assert(console_input_taken(pre, mid1));
                }
                let st = self.run(rt, line.as_str());
                let ghost mid2 = *rt;
                if st != 0 {
                    let mut msg = String::new();
                    if st >= 0 {
                        msg.append("exit: ");
                        let st_str = crate::text::fmt_dec(st as u64);
                        msg.append(st_str.as_str());
                    } else {
                        msg.append("exit: -");
                        let neg: i32 = -(st as i32);
                        let st_str = crate::text::fmt_dec(neg as u64);
                        msg.append(st_str.as_str());
                    }
                    proof {
                        assert(msg@ == exit_line(st));
                    }
                    print_line(rt, msg);
                }
                proof {
                    assert(self.cycle_post(pre, *rt, Some(st)));
                }
                Some(st)
            }
        }
    }
}

} // verus!
