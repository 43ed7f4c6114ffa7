//! The pulse sensor: a thin wrapper over whatever sampling backend a
//! board wires up. The backend trait is implemented by target code (an
//! ADC channel, usually); the wrapper only holds it and forwards reads.

use vstd::prelude::*;

verus! {

/// What a board must supply to back a pulse sensor: one raw sample per
/// read. What the sample means is the hardware's business.
pub trait PulseSensorInterface {
    fn read(&mut self) -> u16;
}

/// A pulse sensor over a board-supplied backend.
pub struct PulseSensor<I: PulseSensorInterface> {
    ifc: I,
}

impl<I: PulseSensorInterface> PulseSensor<I> {
    /// The backend the sensor samples through.
    pub closed spec fn backend(self) -> I {
        self.ifc
    }

    pub fn new(ifc: I) -> (s: PulseSensor<I>)
        ensures
            s.backend() == ifc,
    {
        PulseSensor { ifc }
    }

    /// One raw sample from the backend.
    pub fn read(&mut self) -> u16 {
        self.ifc.read()
    }
}

} // verus!
