//! Per-module logger metadata: each module name carries a least severity
//! that still prints and a greatest verbosity level that still prints.
//! The logging path consults this table before formatting anything; the
//! shell reads and rewrites it through the `log` command.

use vstd::prelude::*;

use crate::text::dec_chars;

verus! {

/// Message severities, least to most severe.
#[derive(Clone, Copy, PartialEq, Eq, Structural, Debug)]
pub enum Severity {
    Trace,
    Info,
    Warn,
    Error,
    Fatal,
}

/// The position of `s` in the severity order, 0 for the least severe.
pub open spec fn severity_rank(s: Severity) -> int {
    match s {
        Severity::Trace => 0,
        Severity::Info => 1,
        Severity::Warn => 2,
        Severity::Error => 3,
        Severity::Fatal => 4,
    }
}

/// The display name of a severity.
pub open spec fn severity_chars(s: Severity) -> Seq<char> {
    match s {
        Severity::Trace => "Trace"@,
        Severity::Info => "Info"@,
        Severity::Warn => "Warn"@,
        Severity::Error => "Error"@,
        Severity::Fatal => "Fatal"@,
    }
}

/// The severity a token names; anything unrecognized reads as the least
/// severe, so a typo can only make a module noisier, never mute it.
pub open spec fn severity_from_chars(s: Seq<char>) -> Severity {
    if s == "Fatal"@ {
        Severity::Fatal
    } else if s == "Error"@ {
        Severity::Error
    } else if s == "Warn"@ {
        Severity::Warn
    } else if s == "Info"@ {
        Severity::Info
    } else {
        Severity::Trace
    }
}

impl Severity {
    pub fn rank(&self) -> (r: u8)
        ensures
            r as int == severity_rank(*self),
    {
        match self {
            Severity::Trace => 0,
            Severity::Info => 1,
            Severity::Warn => 2,
            Severity::Error => 3,
            Severity::Fatal => 4,
        }
    }

    pub fn name(&self) -> (s: String)
        ensures
            s@ == severity_chars(*self),
    {
        let lit: &str = match self {
            Severity::Trace => "Trace",
            Severity::Info => "Info",
            Severity::Warn => "Warn",
            Severity::Error => "Error",
            Severity::Fatal => "Fatal",
        };
        lit.to_owned()
    }

    pub fn parse(token: &str) -> (s: Severity)
        ensures
            s == severity_from_chars(token@),
    {
        if crate::text::str_eq(token, "Fatal") {
            Severity::Fatal
        } else if crate::text::str_eq(token, "Error") {
            Severity::Error
        } else if crate::text::str_eq(token, "Warn") {
            Severity::Warn
        } else if crate::text::str_eq(token, "Info") {
            Severity::Info
        } else {
            Severity::Trace
        }
    }
}

/// One module's metadata entry.
pub struct ModuleMeta {
    pub name: String,
    pub severity: Severity,
    pub level: u8,
}

/// The metadata table, one entry per registered module name.
pub struct ModuleMetaManager {
    entries: Vec<ModuleMeta>,
}

/// Whether a message printed at `sev` and `lvl` passes a module whose
/// entry allows severities from `min_sev` up and levels up to `max_lvl`.
pub open spec fn spec_allows(min_sev: Severity, max_lvl: u8, sev: Severity, lvl: u8) -> bool {
    severity_rank(sev) >= severity_rank(min_sev) && lvl <= max_lvl
}

/// The line `log list` shows for one module.
pub open spec fn meta_line(name: Seq<char>, sev: Severity, lvl: u8) -> Seq<char> {
    name + ": >"@ + severity_chars(sev) + " <"@ + dec_chars(lvl as nat)
}

impl ModuleMetaManager {
    /// The entries as (name, severity, level) rows, registration order.
    pub closed spec fn rows(self) -> Seq<(Seq<char>, Severity, u8)> {
        Seq::new(self.entries@.len(), |i: int| (self.entries@[i].name@, self.entries@[i].severity, self.entries@[i].level))
    }

    /// Names are unique, so each module has one entry.
    pub closed spec fn wf(self) -> bool {
        forall|i: int, j: int|
            0 <= i < j < self.entries@.len() ==> self.entries@[i].name@ != self.entries@[j].name@
    }

    pub open spec fn contains_module(self, name: Seq<char>) -> bool {
        exists|i: int| 0 <= i < self.rows().len() && (#[trigger] self.rows()[i]).0 == name
    }

    pub open spec fn row_of(self, name: Seq<char>) -> (Seq<char>, Severity, u8) {
        self.rows()[choose|i: int| 0 <= i < self.rows().len() && (#[trigger] self.rows()[i]).0 == name]
    }

    pub open spec fn severity_of(self, name: Seq<char>) -> Severity {
        self.row_of(name).1
    }

    pub open spec fn level_of(self, name: Seq<char>) -> u8 {
        self.row_of(name).2
    }

    pub fn new() -> (m: ModuleMetaManager)
        ensures
            m.wf(),
            m.rows() =~= Seq::<(Seq<char>, Severity, u8)>::empty(),
    {
        ModuleMetaManager { entries: Vec::new() }
    }

    /// The index of `name`'s entry, if present.
    fn find(&self, name: &str) -> (r: Option<usize>)
        ensures
            match r {
                Some(i) => i < self.rows().len() && self.rows()[i as int].0 == name@,
                None => !self.contains_module(name@),
            },
    {
        let mut i: usize = 0;
        let n = self.entries.len();
        while i < n
            invariant
                n == self.entries@.len(),
                i <= n,
                forall|j: int| 0 <= j < i ==> (#[trigger] self.rows()[j]).0 != name@,
            decreases n - i,
        {
            if crate::text::str_eq(self.entries[i].name.as_str(), name) {
                proof {
                    assert(self.rows()[i as int].0 == name@);
                }
                return Some(i);
            }
            proof {
                assert(self.rows()[i as int].0 == self.entries@[i as int].name@);
            }
            i = i + 1;
        }
        None
    }

    /// What a full (severity, level) write to `name` leaves behind: the
    /// module's row holds exactly the written pair — created at the end of
    /// the table when the module was new — and every other row is as it was.
    pub open spec fn set_post(
        pre: ModuleMetaManager,
        post: ModuleMetaManager,
        name: Seq<char>,
        sev: Severity,
        lvl: u8,
    ) -> bool {
        &&& post.wf()
        &&& post.contains_module(name)
        &&& post.severity_of(name) == sev
        &&& post.level_of(name) == lvl
        &&& if pre.contains_module(name) {
            post.rows().len() == pre.rows().len()
        } else {
            post.rows() == pre.rows().push((name, sev, lvl))
        }
        &&& forall|i: int|
            0 <= i < pre.rows().len() && pre.rows()[i].0 != name
                ==> #[trigger] post.rows()[i] == pre.rows()[i]
        &&& forall|i: int|
            0 <= i < pre.rows().len() && pre.rows()[i].0 == name
                ==> #[trigger] post.rows()[i] == (name, sev, lvl)
    }

    /// Sets both the severity and the level for `name`, creating the entry
    /// if the module was never registered.
    pub fn register(&mut self, name: &str, sev: Severity, lvl: u8)
        requires
            old(self).wf(),
        ensures
            Self::set_post(*old(self), *final(self), name@, sev, lvl),
    {
        let found = self.find(name);
        match found {
            Some(i) => {
                let e = &mut self.entries[i];
                e.severity = sev;
                e.level = lvl;
                proof {
                    assert(self.rows()[i as int] == (name@, sev, lvl));
                    assert(forall|j: int|
                        0 <= j < self.rows().len() && j != i
                            ==> #[trigger] self.rows()[j] == old(self).rows()[j]);
                    assert forall|a: int, b: int|
                        0 <= a < b < self.entries@.len() implies self.entries@[a].name@
                        != self.entries@[b].name@ by {
                        assert(old(self).rows()[a].0 == old(self).entries@[a].name@);
                        assert(old(self).rows()[b].0 == old(self).entries@[b].name@);
                    }
                    assert(self.contains_module(name@));
                    let k = choose|k: int|
                        0 <= k < self.rows().len() && (#[trigger] self.rows()[k]).0 == name@;
                    if k != i {
                        assert(old(self).rows()[k].0 == name@);
                        assert(false);
                    }
                }
            }
            None => {
                let e = ModuleMeta { name: name.to_owned(), severity: sev, level: lvl };
                self.entries.push(e);
                proof {
                    let n = old(self).rows().len() as int;
                    assert(self.rows() =~= old(self).rows().push((name@, sev, lvl)));
                    assert forall|a: int, b: int|
                        0 <= a < b < self.entries@.len() implies self.entries@[a].name@
                        != self.entries@[b].name@ by {
                        if b < n {
                            assert(old(self).rows()[a].0 == old(self).entries@[a].name@);
                            assert(old(self).rows()[b].0 == old(self).entries@[b].name@);
                        } else {
                            assert(old(self).rows()[a].0 == old(self).entries@[a].name@);
                        }
                    }
                    assert(self.rows()[n].0 == name@);
                    assert(self.contains_module(name@));
                    let k = choose|k: int|
                        0 <= k < self.rows().len() && (#[trigger] self.rows()[k]).0 == name@;
                    if k != n {
                        assert(old(self).rows()[k].0 == name@);
                        assert(false);
                    }
                }
            }
        }
    }

    /// Sets the severity for `name`, keeping its level; a module never
    /// registered is created with every level allowed.
    pub fn set_severity(&mut self, name: &str, sev: Severity)
        requires
            old(self).wf(),
        ensures
            Self::set_post(
                *old(self),
                *final(self),
                name@,
                sev,
                if old(self).contains_module(name@) {
                    old(self).level_of(name@)
                } else {
                    255
                },
            ),
    {
        let found = self.find(name);
        match found {
            Some(i) => {
                let lvl = self.entries[i].level;
                proof {
                    assert(self.rows()[i as int].2 == lvl);
                    let k = choose|k: int|
                        0 <= k < self.rows().len() && (#[trigger] self.rows()[k]).0 == name@;
                    if k != i {
                        assert(self.rows()[k].0 == self.entries@[k].name@);
                        assert(self.rows()[i as int].0 == self.entries@[i as int].name@);
                        assert(false);
                    }
                    assert(self.level_of(name@) == lvl);
                }
                self.register(name, sev, lvl);
            }
            None => {
                self.register(name, sev, 255);
            }
        }
    }

    /// Sets the level for `name`, keeping its severity; a module never
    /// registered is created with every severity allowed.
    pub fn set_level(&mut self, name: &str, lvl: u8)
        requires
            old(self).wf(),
        ensures
            Self::set_post(
                *old(self),
                *final(self),
                name@,
                if old(self).contains_module(name@) {
                    old(self).severity_of(name@)
                } else {
                    Severity::Trace
                },
                lvl,
            ),
    {
        let found = self.find(name);
        match found {
            Some(i) => {
                let sev = self.entries[i].severity;
                proof {
                    assert(self.rows()[i as int].1 == sev);
                    let k = choose|k: int|
                        0 <= k < self.rows().len() && (#[trigger] self.rows()[k]).0 == name@;
                    if k != i {
                        assert(self.rows()[k].0 == self.entries@[k].name@);
                        assert(self.rows()[i as int].0 == self.entries@[i as int].name@);
                        assert(false);
                    }
                    assert(self.severity_of(name@) == sev);
                }
                self.register(name, sev, lvl);
            }
            None => {
                self.register(name, Severity::Trace, lvl);
            }
        }
    }

    /// Whether a message at `sev` and `lvl` from module `name` prints.
    /// A module with no entry prints nothing.
    pub fn allows(&self, name: &str, sev: Severity, lvl: u8) -> (r: bool)
        requires
            self.wf(),
        ensures
            r <==> self.contains_module(name@)
                && spec_allows(self.severity_of(name@), self.level_of(name@), sev, lvl),
    {
        let found = self.find(name);
        match found {
            Some(i) => {
                proof {
                    assert(self.contains_module(name@));
                    let k = choose|k: int|
                        0 <= k < self.rows().len() && (#[trigger] self.rows()[k]).0 == name@;
                    if k != i {
                        assert(self.rows()[k].0 == self.entries@[k].name@);
                        assert(self.rows()[i as int].0 == self.entries@[i as int].name@);
                        assert(false);
                    }
                    assert(self.severity_of(name@) == self.entries@[i as int].severity);
                    assert(self.level_of(name@) == self.entries@[i as int].level);
                }
                sev.rank() >= self.entries[i].severity.rank() && lvl <= self.entries[i].level
            }
            None => false,
        }
    }

    /// The lines `log list` prints, one per module, registration order.
    pub fn format_lines(&self) -> (lines: Vec<String>)
        ensures
            lines.deep_view().len() == self.rows().len(),
            forall|i: int|
                0 <= i < self.rows().len()
                    ==> #[trigger] lines.deep_view()[i] == meta_line(
                    self.rows()[i].0,
                    self.rows()[i].1,
                    self.rows()[i].2,
                ),
    {
        let mut lines: Vec<String> = Vec::new();
        let n = self.entries.len();
        let mut i: usize = 0;
        while i < n
            invariant
                n == self.entries@.len(),
                i <= n,
                lines.deep_view().len() == i,
                forall|j: int|
                    0 <= j < i ==> #[trigger] lines.deep_view()[j] == meta_line(
                        self.rows()[j].0,
                        self.rows()[j].1,
                        self.rows()[j].2,
                    ),
            decreases n - i,
        {
            let e = &self.entries[i];
            let mut line: String = e.name.clone();
            line.append(": >");
            let sev_name = e.severity.name();
            line.append(sev_name.as_str());
            line.append(" <");
            let lvl_str = crate::text::fmt_dec(e.level as u64);
            line.append(lvl_str.as_str());
            let ghost before = lines.deep_view();
            lines.push(line);
            proof {
                assert(lines.deep_view() =~= before.push(line@));
                assert(line@ == meta_line(self.rows()[i as int].0, self.rows()[i as int].1, self.rows()[i as int].2));
            }
            i = i + 1;
        }
        lines
    }

    /// How many modules are registered.
    pub fn len(&self) -> (n: usize)
        ensures
            n == self.rows().len(),
    {
        self.entries.len()
    }
}

} // verus!
