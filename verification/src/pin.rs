//! A mock output pin: stands in for a board LED pin where none is wired,
//! remembering its level and reporting how long the previous level was
//! held. Boards insert one into the object store under the LED key.

use vstd::prelude::*;

use crate::text::dec_chars;

verus! {

/// `a - b` in the tick counter's 32-bit wraparound arithmetic.
pub open spec fn wrap_sub_u32(a: u32, b: u32) -> int {
    (a - b) % 0x1_0000_0000
}

/// The display name of a pin level.
pub open spec fn level_chars(high: bool) -> Seq<char> {
    if high {
        "HIGH"@
    } else {
        "LOW"@
    }
}

/// The line a level change reports: the new level, the level that was
/// held, and for how many ticks.
pub open spec fn pin_line(level: int, was: bool, elapsed: int) -> Seq<char> {
    "MockPin("@ + dec_chars(level as nat) + "): Was "@ + level_chars(was) + " for "@ + dec_chars(
        elapsed as nat,
    ) + " ticks"@
}

/// A pin with no hardware behind it.
pub struct MockPin {
    state: bool,
    last_state_change_time: u32,
}

impl MockPin {
    pub closed spec fn level(self) -> bool {
        self.state
    }

    pub closed spec fn last_change(self) -> u32 {
        self.last_state_change_time
    }

    /// A fresh pin, low since tick zero.
    pub fn new() -> (p: MockPin)
        ensures
            !p.level(),
            p.last_change() == 0,
    {
        MockPin { state: false, last_state_change_time: 0 }
    }

    /// The display name of the current level.
    pub fn state_str(&self) -> (s: &'static str)
        ensures
            s@ == level_chars(self.level()),
    {
        if self.state {
            "HIGH"
        } else {
            "LOW"
        }
    }

    fn elapsed(&self, now: u32) -> (e: u32)
        ensures
            e as int == wrap_sub_u32(now, self.last_change()),
    {
        let wide: u64 = (now as u64 + 0x1_0000_0000) - self.last_state_change_time as u64;
        let e: u64 = wide % 0x1_0000_0000;
        proof {
            let a = now as int;
            let b = self.last_state_change_time as int;
            assert((a + 0x1_0000_0000 - b) % 0x1_0000_0000 == (a - b) % 0x1_0000_0000) by {
                vstd::arithmetic::div_mod::lemma_mod_add_multiples_vanish(
                    a - b,
                    0x1_0000_0000,
                );
            }
        }
        e as u32
    }

    /// Drives the pin low and reports the level that was held.
    pub fn set_low(&mut self, now: u32) -> (line: String)
        ensures
            !final(self).level(),
            final(self).last_change() == now,
            line@ == pin_line(0, old(self).level(), wrap_sub_u32(now, old(self).last_change())),
    {
        let e = self.elapsed(now);
        let mut line = String::new();
        line.append("MockPin(");
        let zero = crate::text::fmt_dec(0);
        line.append(zero.as_str());
        line.append("): Was ");
        line.append(self.state_str());
        line.append(" for ");
        let ticks = crate::text::fmt_dec(e as u64);
        line.append(ticks.as_str());
        line.append(" ticks");
        self.state = false;
        self.last_state_change_time = now;
        line
    }

    /// Drives the pin high and reports the level that was held.
    pub fn set_high(&mut self, now: u32) -> (line: String)
        ensures
            final(self).level(),
            final(self).last_change() == now,
            line@ == pin_line(1, old(self).level(), wrap_sub_u32(now, old(self).last_change())),
    {
        let e = self.elapsed(now);
        let mut line = String::new();
        line.append("MockPin(");
        let one = crate::text::fmt_dec(1);
        line.append(one.as_str());
        line.append("): Was ");
        line.append(self.state_str());
        line.append(" for ");
        let ticks = crate::text::fmt_dec(e as u64);
        line.append(ticks.as_str());
        line.append(" ticks");
        self.state = true;
        self.last_state_change_time = now;
        line
    }
}

} // verus!
