use vstd::prelude::*;

verus! {

/// An x86 I/O port number.
#[derive(Clone, Copy, Debug, PartialEq, Eq, Structural)]
pub struct Port(pub u16);

impl Port {
    pub fn new(port: u16) -> (p: Port)
        ensures
            p.0 == port,
    {
        Port(port)
    }

    /// The port whose number differs from this one in the lowest bit (the
    /// data port of an index/data pair).
    pub fn silbing(self) -> (p: Port)
        ensures
            p.0 == self.0 ^ 1,
    {
        Port(self.0 ^ 1)
    }
}

/// The port that a short delay is made by writing to.
pub open spec fn wait_port() -> Port {
    Port(0x80)
}

/// The write that gives the hardware a short delay.
pub fn wait() -> (w: (Port, u8))
    ensures
        w == (wait_port(), 0u8),
{
    (Port(0x80), 0)
}

/// The sibling of a port's sibling is the port itself.
pub proof fn lemma_silbing_involutive(p: u16)
    ensures
        (p ^ 1) ^ 1 == p,
{
    assert((p ^ 1) ^ 1 == p) by (bit_vector);
}

} // verus!
