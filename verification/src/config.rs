//! What a run is configured with: tracing and the memory-mapped devices.

use vstd::prelude::*;

verus! {

/// A memory-mapped output device: writes to `addr` also go to `file`.
#[derive(Default, Debug, Clone, PartialEq, Eq)]
pub struct Device {
    pub addr: u8,
    pub file: String,
}

/// The configuration of a run. `io` lists the devices by name; where two
/// devices share an address, the later of them is the one mapped there.
#[derive(Default, Debug, Clone, PartialEq, Eq)]
pub struct Config {
    pub verbose: bool,
    pub io: Vec<(String, Device)>,
}

/// The index in `io` of the device mapped at `addr`: the last that names
/// that address.
pub open spec fn device_at(io: Seq<(String, Device)>, addr: u8) -> Option<usize>
    decreases io.len(),
{
    if io.len() == 0 {
        None
    } else if io.last().1.addr == addr {
        Some((io.len() - 1) as usize)
    } else {
        device_at(io.drop_last(), addr)
    }
}

/// The device mapped at an address is a device of the list, it names that
/// address, and no device behind it in the list does; where none is
/// mapped, no device of the list names the address.
pub proof fn lemma_device_at(io: Seq<(String, Device)>, addr: u8)
    requires
        io.len() <= usize::MAX,
    ensures
        match device_at(io, addr) {
            Some(i) => i < io.len() && io[i as int].1.addr == addr && forall|j: int|
                i < j < io.len() ==> (#[trigger] io[j]).1.addr != addr,
            None => forall|j: int| 0 <= j < io.len() ==> (#[trigger] io[j]).1.addr != addr,
        },
    decreases io.len(),
{
    if io.len() > 0 && io.last().1.addr != addr {
        let front = io.drop_last();
        lemma_device_at(front, addr);
        assert forall|j: int| 0 <= j < front.len() implies (#[trigger] io[j]) == front[j] by {}
    }
}

impl Config {
    /// The device mapped at `addr`, as its index in `io`.
    pub fn device_for(&self, addr: u8) -> (r: Option<usize>)
        ensures
            r == device_at(self.io@, addr),
            r matches Some(i) ==> i < self.io@.len() && self.io@[i as int].1.addr == addr,
    {
        let mut i: usize = self.io.len();
        proof {
            lemma_device_at(self.io@, addr);
        }
        assert(self.io@.take(i as int) =~= self.io@);
        while i > 0
            invariant
                i <= self.io@.len(),
                device_at(self.io@, addr) == device_at(self.io@.take(i as int), addr),
            decreases i,
        {
            i -= 1;
            assert(self.io@.take(i + 1).drop_last() =~= self.io@.take(i as int));
            if self.io[i].1.addr == addr {
                return Some(i);
            }
        }
        None
    }
}

} // verus!
