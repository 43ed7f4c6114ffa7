//! The hosted console: a line-oriented terminal object kept in the object
//! store under the console key. The shell and the panic reporter write
//! whole lines; the board (or the host program) feeds input lines and
//! drains output lines to the real device.

use vstd::prelude::*;

verus! {

/// A line-oriented terminal: queued input lines and accumulated output.
pub struct Tty {
    pub inp: Vec<String>,
    pub out: Vec<String>,
}

impl Tty {
    /// The lines written so far, oldest first.
    pub open spec fn out_lines(self) -> Seq<Seq<char>> {
        self.out.deep_view()
    }

    /// The input lines not yet read, oldest first.
    pub open spec fn in_lines(self) -> Seq<Seq<char>> {
        self.inp.deep_view()
    }

    pub fn new() -> (t: Tty)
        ensures
            t.out_lines() =~= Seq::<Seq<char>>::empty(),
            t.in_lines() =~= Seq::<Seq<char>>::empty(),
    {
        Tty { inp: Vec::new(), out: Vec::new() }
    }

    /// Appends one line of output.
    pub fn write_line(&mut self, line: String)
        ensures
            final(self).out_lines() =~= old(self).out_lines().push(line@),
            final(self).in_lines() == old(self).in_lines(),
    {
        self.out.push(line);
        proof {
            assert(self.out_lines() =~= old(self).out_lines().push(line@));
            assert(self.in_lines() =~= old(self).in_lines());
        }
    }

    /// Takes the oldest pending input line, if there is one. Absence of
    /// input is not an error: the shell polls and treats it as a no-op.
    pub fn read_line(&mut self) -> (r: Option<String>)
        ensures
            final(self).out_lines() == old(self).out_lines(),
            match r {
                Some(line) => old(self).in_lines().len() > 0
                    && line@ == old(self).in_lines()[0]
                    && final(self).in_lines() =~= old(self).in_lines().skip(1),
                None => old(self).in_lines().len() == 0 && *final(self) == *old(self),
            },
    {
        if self.inp.len() == 0 {
            proof {
                assert(self.in_lines() =~= old(self).in_lines());
                assert(self.out_lines() =~= old(self).out_lines());
            }
            None
        } else {
            let line = self.inp.remove(0);
            proof {
                assert(self.in_lines() =~= old(self).in_lines().skip(1));
                assert(self.out_lines() =~= old(self).out_lines());
            }
            Some(line)
        }
    }

    /// Queues one line of input for the shell to read later.
    pub fn push_input(&mut self, line: String)
        ensures
            final(self).in_lines() =~= old(self).in_lines().push(line@),
            final(self).out_lines() == old(self).out_lines(),
    {
        self.inp.push(line);
        proof {
            assert(self.in_lines() =~= old(self).in_lines().push(line@));
            assert(self.out_lines() =~= old(self).out_lines());
        }
    }

    /// Hands every written line to the caller and clears the output, so the
    /// host can forward it to the real device.
    pub fn drain_output(&mut self) -> (lines: Vec<String>)
        ensures
            lines.deep_view() == old(self).out_lines(),
            final(self).out_lines() =~= Seq::<Seq<char>>::empty(),
            final(self).in_lines() == old(self).in_lines(),
    {
        let mut lines: Vec<String> = Vec::new();
        core::mem::swap(&mut lines, &mut self.out);
        proof {
            assert(self.in_lines() =~= old(self).in_lines());
        }
        lines
    }
}

} // verus!
