//! What the kernel learns from the hardware description at boot: the number
//! of harts, the timebase frequency, the serial port and the memory regions.
//! The description is walked node by node elsewhere; these functions take
//! each node and property as it comes and decide how the walk goes on.
use vstd::prelude::*;

verus! {

/// The most memory regions kept.
pub const MEMORY_SLOTS: usize = 8;

/// How the walk of the description goes on after a node or a property.
#[derive(Debug, Clone, Copy, PartialEq, Eq, Structural)]
pub enum WalkStep {
    /// Visit the node's children.
    StepInto,
    /// Skip the node.
    StepOver,
    /// Leave the node being visited.
    StepOut,
}

/// `s` begins with `p`.
pub open spec fn starts_with(s: Seq<u8>, p: Seq<u8>) -> bool {
    p.len() <= s.len() && s.subrange(0, p.len() as int) == p
}

/// The name of the node listing the harts.
pub open spec fn cpus_name() -> Seq<u8> {
    seq![0x63u8, 0x70, 0x75, 0x73]
}

/// The name of the node listing the on-chip devices.
pub open spec fn soc_name() -> Seq<u8> {
    seq![0x73u8, 0x6f, 0x63]
}

/// The value of the big-endian bytes `s`, as 64 bits.
pub open spec fn big_endian(s: Seq<u8>) -> u64
    decreases s.len(),
{
    if s.len() == 0 {
        0
    } else {
        (big_endian(s.drop_last()) << 8) | (s.last() as u64)
    }
}

/// Whether `s` begins with `p`.
fn has_prefix(s: &[u8], p: &[u8]) -> (r: bool)
    ensures
        r == starts_with(s@, p@),
{
    if p.len() > s.len() {
        return false;
    }
    let mut i: usize = 0;
    while i < p.len()
        invariant
            p@.len() <= s@.len(),
            i <= p@.len(),
            forall|k: int| 0 <= k < i ==> s@[k] == p@[k],
        decreases p@.len() - i,
    {
        if s[i] != p[i] {
            assert(s@.subrange(0, p@.len() as int)[i as int] != p@[i as int]);
            return false;
        }
        i += 1;
    }
    assert(s@.subrange(0, p@.len() as int) =~= p@);
    true
}

/// Whether `s` is `p`.
fn same_bytes(s: &[u8], p: &[u8]) -> (r: bool)
    ensures
        r == (s@ == p@),
{
    if s.len() != p.len() {
        return false;
    }
    let r = has_prefix(s, p);
    assert(s@.subrange(0, s@.len() as int) =~= s@);
    r
}

/// The bytes of the hart list's name.
fn cpus_bytes() -> (r: Vec<u8>)
    ensures
        r@ == cpus_name(),
{
    let r = vec![0x63u8, 0x70, 0x75, 0x73];
    assert(r@ =~= cpus_name());
    r
}

/// The bytes of the device list's name.
fn soc_bytes() -> (r: Vec<u8>)
    ensures
        r@ == soc_name(),
{
    let r = vec![0x73u8, 0x6f, 0x63];
    assert(r@ =~= soc_name());
    r
}

/// "cpu@"
pub open spec fn cpu_prefix() -> Seq<u8> {
    seq![0x63u8, 0x70, 0x75, 0x40]
}

/// "uart"
pub open spec fn uart_prefix() -> Seq<u8> {
    seq![0x75u8, 0x61, 0x72, 0x74]
}

/// "serial"
pub open spec fn serial_prefix() -> Seq<u8> {
    seq![0x73u8, 0x65, 0x72, 0x69, 0x61, 0x6c]
}

/// "memory"
pub open spec fn memory_prefix() -> Seq<u8> {
    seq![0x6du8, 0x65, 0x6d, 0x6f, 0x72, 0x79]
}

/// "memory@"
pub open spec fn memory_node_prefix() -> Seq<u8> {
    memory_prefix().push(0x40u8)
}

/// "timebase-frequency"
pub open spec fn timebase_name() -> Seq<u8> {
    seq![
        0x74u8, 0x69, 0x6d, 0x65, 0x62, 0x61, 0x73, 0x65, 0x2d, 0x66, 0x72, 0x65, 0x71, 0x75,
        0x65, 0x6e, 0x63, 0x79,
    ]
}

/// `v`, known to hold the bytes `s`.
fn bytes_of(s: Ghost<Seq<u8>>, v: Vec<u8>) -> (r: Vec<u8>)
    requires
        v@ =~= s@,
    ensures
        r@ == s@,
{
    v
}

/// How the walk goes on at the sub-node `name` of `parent`, at depth
/// `level`: into the top-level hart and device lists, into serial ports
/// among the devices and into memory nodes; over everything else, harts
/// included.
pub open spec fn subnode_step(level: usize, parent: Seq<u8>, name: Seq<u8>) -> WalkStep {
    if level == 0 && (name == cpus_name() || name == soc_name()) {
        WalkStep::StepInto
    } else if parent == cpus_name() && starts_with(name, cpu_prefix()) {
        WalkStep::StepOver
    } else if parent == soc_name() && (starts_with(name, uart_prefix()) || starts_with(
        name,
        serial_prefix(),
    )) {
        WalkStep::StepInto
    } else if starts_with(name, memory_node_prefix()) {
        WalkStep::StepInto
    } else {
        WalkStep::StepOver
    }
}

/// `name` is a hart listed under the hart list.
pub open spec fn is_hart(level: usize, parent: Seq<u8>, name: Seq<u8>) -> bool {
    !(level == 0 && (name == cpus_name() || name == soc_name())) && parent == cpus_name()
        && starts_with(name, cpu_prefix())
}

/// What the hardware description says of the board.
pub struct BoardInfo {
    /// Number of harts.
    pub smp: usize,
    /// Timebase frequency, in Hz.
    pub frequency: u64,
    /// Base address of the serial port.
    pub uart: usize,
    /// Memory regions as (start, end), at most [`MEMORY_SLOTS`] of them.
    pub memory: Vec<(usize, usize)>,
}

impl BoardInfo {
    /// Nothing known yet.
    pub fn new() -> (r: BoardInfo)
        ensures
            r.smp == 0,
            r.frequency == 0,
            r.uart == 0,
            r.memory@ == Seq::<(usize, usize)>::empty(),
    {
        BoardInfo { smp: 0, frequency: 0, uart: 0, memory: Vec::new() }
    }

    /// Takes the sub-node `name` of `parent` at depth `level`: counts it if
    /// it is a hart (the count stops at `usize::MAX`), and says how the walk
    /// goes on.
    pub fn on_subnode(&mut self, level: usize, parent: &[u8], name: &[u8]) -> (r: WalkStep)
        ensures
            r == subnode_step(level, parent@, name@),
            final(self).smp == if is_hart(level, parent@, name@) && old(self).smp < usize::MAX {
                (old(self).smp + 1) as usize
            } else {
                old(self).smp
            },
            final(self).frequency == old(self).frequency,
            final(self).uart == old(self).uart,
            final(self).memory@ == old(self).memory@,
    {
        let cpus = cpus_bytes();
        let soc = soc_bytes();
        let cpu_at = bytes_of(Ghost(cpu_prefix()), vec![0x63u8, 0x70, 0x75, 0x40]);
        let uart = bytes_of(Ghost(uart_prefix()), vec![0x75u8, 0x61, 0x72, 0x74]);
        let serial = bytes_of(Ghost(serial_prefix()), vec![0x73u8, 0x65, 0x72, 0x69, 0x61, 0x6c]);
        let memory_at = bytes_of(
            Ghost(memory_node_prefix()),
            vec![0x6du8, 0x65, 0x6d, 0x6f, 0x72, 0x79, 0x40],
        );
        if level == 0 && (same_bytes(name, cpus.as_slice()) || same_bytes(name, soc.as_slice())) {
            WalkStep::StepInto
        } else if same_bytes(parent, cpus.as_slice()) && has_prefix(name, cpu_at.as_slice()) {
            if self.smp < usize::MAX {
                self.smp = self.smp + 1;
            }
            WalkStep::StepOver
        } else if same_bytes(parent, soc.as_slice()) && (has_prefix(name, uart.as_slice())
            || has_prefix(name, serial.as_slice())) {
            WalkStep::StepInto
        } else if has_prefix(name, memory_at.as_slice()) {
            WalkStep::StepInto
        } else {
            WalkStep::StepOver
        }
    }

    /// Takes the address ranges `regions` of the node `parent`: a serial
    /// port's base is the start of its first range; a memory node's ranges
    /// are kept while there is room. The walk then leaves the node.
    pub fn on_reg(&mut self, parent: &[u8], regions: &[(usize, usize)]) -> (r: WalkStep)
        requires
            old(self).memory@.len() <= MEMORY_SLOTS,
        ensures
            r == WalkStep::StepOut,
            final(self).memory@.len() <= MEMORY_SLOTS,
            final(self).smp == old(self).smp,
            final(self).frequency == old(self).frequency,
            (starts_with(parent@, uart_prefix()) || starts_with(parent@, serial_prefix())) ==> {
                &&& final(self).uart == if regions@.len() > 0 {
                    regions@[0].0
                } else {
                    old(self).uart
                }
                &&& final(self).memory@ == old(self).memory@
            },
            !(starts_with(parent@, uart_prefix()) || starts_with(parent@, serial_prefix()))
                ==> final(self).uart == old(self).uart,
            !(starts_with(parent@, uart_prefix()) || starts_with(parent@, serial_prefix()))
                && starts_with(parent@, memory_prefix()) ==> final(self).memory@ == old(self).memory@ + regions@.take(
                if regions@.len() < MEMORY_SLOTS - old(self).memory@.len() {
                    regions@.len() as int
                } else {
                    MEMORY_SLOTS - old(self).memory@.len()
                },
            ),
            !(starts_with(parent@, uart_prefix()) || starts_with(parent@, serial_prefix()))
                && !starts_with(parent@, memory_prefix()) ==> final(self).memory@ == old(self).memory@,
    {
        let uart = bytes_of(Ghost(uart_prefix()), vec![0x75u8, 0x61, 0x72, 0x74]);
        let serial = bytes_of(Ghost(serial_prefix()), vec![0x73u8, 0x65, 0x72, 0x69, 0x61, 0x6c]);
        let memory = bytes_of(Ghost(memory_prefix()), vec![0x6du8, 0x65, 0x6d, 0x6f, 0x72, 0x79]);
        if has_prefix(parent, uart.as_slice()) || has_prefix(parent, serial.as_slice()) {
            if regions.len() > 0 {
                self.uart = regions[0].0;
            }
        } else if has_prefix(parent, memory.as_slice()) {
            let ghost start = self.memory@;
            let mut i: usize = 0;
            while i < regions.len() && self.memory.len() < MEMORY_SLOTS
                invariant
                    i <= regions@.len(),
                    start.len() <= MEMORY_SLOTS,
                    self.memory@.len() == start.len() + i,
                    self.memory@ == start + regions@.take(i as int),
                    self.memory@.len() <= MEMORY_SLOTS,
                    start == old(self).memory@,
                    self.smp == old(self).smp,
                    self.frequency == old(self).frequency,
                    self.uart == old(self).uart,
                decreases regions@.len() - i,
            {
                self.memory.push(regions[i]);
                i += 1;
                assert(regions@.take(i as int) =~= regions@.take((i - 1) as int).push(
                    regions@[(i - 1) as int],
                ));
                assert(self.memory@ =~= start + regions@.take(i as int));
            }
        }
        WalkStep::StepOut
    }

    /// Takes the property `name` of the node `parent`: the hart list's
    /// timebase frequency is read as a big-endian number of four or eight
    /// bytes. `None` when that value has another length; otherwise the walk
    /// goes over.
    pub fn on_property(&mut self, parent: &[u8], name: &[u8], value: &[u8]) -> (r: Option<
        WalkStep,
    >)
        ensures
            final(self).smp == old(self).smp,
            final(self).uart == old(self).uart,
            final(self).memory@ == old(self).memory@,
            parent@ == cpus_name() && name@ == timebase_name() ==> {
                &&& (value@.len() == 4 || value@.len() == 8) ==> r == Some(WalkStep::StepOver)
                    && final(self).frequency == big_endian(value@)
                &&& !(value@.len() == 4 || value@.len() == 8) ==> r is None && final(self).frequency == old(self).frequency
            },
            !(parent@ == cpus_name() && name@ == timebase_name()) ==> r == Some(
                WalkStep::StepOver,
            ) && final(self).frequency == old(self).frequency,
    {
        let cpus = cpus_bytes();
        let timebase = bytes_of(
            Ghost(timebase_name()),
            vec![
                0x74u8, 0x69, 0x6d, 0x65, 0x62, 0x61, 0x73, 0x65, 0x2d, 0x66, 0x72, 0x65, 0x71,
                0x75, 0x65, 0x6e, 0x63, 0x79,
            ],
        );
        if same_bytes(parent, cpus.as_slice()) && same_bytes(name, timebase.as_slice()) {
            if value.len() != 4 && value.len() != 8 {
                return None;
            }
            let mut acc: u64 = 0;
            let mut i: usize = 0;
            while i < value.len()
                invariant
                    i <= value@.len(),
                    acc == big_endian(value@.take(i as int)),
                decreases value@.len() - i,
            {
                assert(value@.take((i + 1) as int).drop_last() =~= value@.take(i as int));
                acc = (acc << 8) | (value[i] as u64);
                i += 1;
            }
            assert(value@.take(value@.len() as int) =~= value@);
            self.frequency = acc;
        }
        Some(WalkStep::StepOver)
    }
}

} // verus!
