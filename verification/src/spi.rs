//! The SPI bus: chip-select discipline around a board-supplied
//! full-duplex port. The board wires up the port and the select pin;
//! the bus only orders the calls — select, transfer, deselect — and
//! folds the port's failures into one bus error.

use vstd::prelude::*;

verus! {

/// A full-duplex byte port, supplied by the board.
pub trait SpiPort {
    fn send(&mut self, data: u8) -> Result<(), ()>;

    fn recv(&mut self) -> Result<u8, ()>;
}

/// The bus's chip-select line, supplied by the board.
pub trait ChipSelectPin {
    fn set_low(&mut self) -> Result<(), ()>;

    fn set_high(&mut self) -> Result<(), ()>;
}

/// The first SPI bus: one port, one select line.
pub struct Spi1Bus<S: SpiPort, P: ChipSelectPin> {
    spi: S,
    cs: P,
}

impl<S: SpiPort, P: ChipSelectPin> Spi1Bus<S, P> {
    /// The port the bus transfers through.
    pub closed spec fn port(self) -> S {
        self.spi
    }

    /// The select line the bus drives.
    pub closed spec fn select(self) -> P {
        self.cs
    }

    pub fn new(spi: S, cs: P) -> (b: Spi1Bus<S, P>)
        ensures
            b.port() == spi,
            b.select() == cs,
    {
        Spi1Bus { spi, cs }
    }

    /// Claims the bus: drives the select line low.
    pub fn lock(&mut self) -> Result<(), ()> {
        self.cs.set_low()
    }

    /// Releases the bus: drives the select line high.
    pub fn unlock(&mut self) -> Result<(), ()> {
        self.cs.set_high()
    }

    /// Sends one byte through the port.
    pub fn send(&mut self, data: u8) -> Result<(), ()> {
        self.spi.send(data)
    }

    /// Receives one byte from the port.
    pub fn recv(&mut self) -> Result<u8, ()> {
        self.spi.recv()
    }
}

} // verus!
