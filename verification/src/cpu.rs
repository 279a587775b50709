//! The execution engine: one instruction per step against the machine
//! state, with an explicit halted state.

use vstd::prelude::*;
use vstd::array::*;
use vstd::string::*;
use crate::text::{numeral, push_numeral, push_padded, push_repeated, repeated, zero_padded};
use crate::config::{device_at, lemma_device_at, Config, Device};
use crate::instruction::Instruction;

verus! {

/// What a step asks of the world outside the machine.
#[derive(Debug, Clone, Copy, PartialEq, Eq, Structural)]
pub enum Effect {
    /// Nothing leaves the machine.
    Idle,
    /// `byte` is appended to the output of the device at index `device` of
    /// the configuration's list.
    DeviceWrite { device: usize, byte: u8 },
}

impl Effect {
    /// Whether the effect names no device, or one of the first `devices`.
    pub open spec fn within(self, devices: int) -> bool {
        match self {
            Effect::Idle => true,
            Effect::DeviceWrite { device, .. } => device < devices,
        }
    }
}

/// The registers, the memory and the halted flag.
pub ghost struct Machine {
    pub ac: u8,
    pub dest: u8,
    pub pc: int,
    pub mem: Seq<u8>,
    pub halted: bool,
}

/// `x` rotated left by `n` places over its eight bits.
pub open spec fn rotate_left_8(x: u8, n: u8) -> u8 {
    let k = n % 8;
    if k == 0 {
        x
    } else {
        (x << k) | (x >> ((8 - k) as u8))
    }
}

/// The machine after one step over the program `ins`, or `None` where the
/// step fails: a store or a load outside the sixteen bytes of memory.
pub open spec fn next_state(ins: Seq<Instruction>, m: Machine) -> Option<Machine> {
    if m.pc < 0 || m.pc >= ins.len() {
        Some(Machine { halted: true, ..m })
    } else {
        let on = Machine { pc: m.pc + 1, ..m };
        match ins[m.pc] {
            Instruction::NOP => Some(on),
            Instruction::HALT => Some(Machine { halted: true, ..m }),
            Instruction::LOADI { imm } => Some(Machine { ac: imm, ..on }),
            Instruction::MOV => Some(Machine { dest: m.ac, ..on }),
            Instruction::ADD => Some(Machine { ac: ((m.dest + m.ac) % 256) as u8, ..on }),
            Instruction::SUB => Some(Machine { ac: ((m.dest - m.ac) % 256) as u8, ..on }),
            Instruction::ST { addr } => if addr < 16 {
                Some(Machine { mem: m.mem.update(addr as int, m.ac), ..on })
            } else {
                None
            },
            Instruction::LD { addr } => if addr < 16 {
                Some(Machine { ac: m.mem[addr as int], ..on })
            } else {
                None
            },
            Instruction::ROL { imm } => Some(Machine { ac: rotate_left_8(m.ac, imm % 16), ..on }),
        }
    }
}

/// What one step sends out: the accumulator, where the step stores to an
/// address in memory that a device is mapped at.
pub open spec fn effect_of(ins: Seq<Instruction>, io: Seq<(String, Device)>, m: Machine) -> Effect {
    if 0 <= m.pc < ins.len() {
        match ins[m.pc] {
            Instruction::ST { addr } => if addr < 16 {
                match device_at(io, addr) {
                    Some(device) => Effect::DeviceWrite { device, byte: m.ac },
                    None => Effect::Idle,
                }
            } else {
                Effect::Idle
            },
            _ => Effect::Idle,
        }
    } else {
        Effect::Idle
    }
}

/// The line that traces the step about to execute `i`: the program
/// counter, the encoded byte (0 where there is none), the mnemonic in a
/// column of eight, the two nibbles, and both registers.
pub open spec fn trace_text(m: Machine, i: Instruction) -> Seq<char> {
    let byte = match i.spec_encode() {
        Some(b) => b,
        None => 0u8,
    };
    zero_padded(numeral(m.pc as nat, 16, false), 4) + ": 0x"@ + numeral(byte as nat, 16, true)
        + " "@ + repeated(' ', 8 - i.spec_mnemonic().len()) + i.spec_mnemonic() + " (op=0x"@
        + numeral((i.spec_opcode() * 16) as nat, 16, true) + ", imm=0x"@ + numeral(
        (i.spec_operand() % 16) as nat,
        16,
        true,
    ) + ") [ac=0x"@ + numeral(m.ac as nat, 16, true) + ",dest=0x"@ + numeral(
        m.dest as nat,
        16,
        true,
    ) + "]"@
}

/// How many steps a machine can still take before it halts on its own.
pub open spec fn steps_left(ins: Seq<Instruction>, m: Machine) -> nat {
    if m.halted {
        0
    } else if m.pc < ins.len() {
        (ins.len() - m.pc + 1) as nat
    } else {
        1
    }
}

/// The machine at the end of a run, with what the run sent out in order;
/// `None` where a step fails.
pub open spec fn run_from(ins: Seq<Instruction>, io: Seq<(String, Device)>, m: Machine) -> Option<
    (Machine, Seq<Effect>),
>
    decreases steps_left(ins, m),
{
    if m.halted {
        Some((m, Seq::empty()))
    } else {
        match next_state(ins, m) {
            None => None,
            Some(next) => match run_from(ins, io, next) {
                None => None,
                Some((last, sent)) => Some((last, seq![effect_of(ins, io, m)] + sent)),
            },
        }
    }
}

/// Behind the end of the program a step only halts, and a second step
/// changes nothing more.
/// A store to an address that a device is mapped at: the step succeeds,
/// the cell at that address holds the accumulator afterwards and every
/// other cell what it held, the registers and the halted flag are as they
/// were, the program counter has moved on by one, and exactly the
/// accumulator is sent to that device.
pub proof fn lemma_store_to_device(
    ins: Seq<Instruction>,
    io: Seq<(String, Device)>,
    m: Machine,
    addr: u8,
    device: usize,
)
    requires
        0 <= m.pc < ins.len(),
        ins[m.pc] == (Instruction::ST { addr }),
        addr < 16,
        m.mem.len() == 16,
        device_at(io, addr) == Some(device),
    ensures
        next_state(ins, m) is Some,
        next_state(ins, m)->Some_0.mem.len() == 16,
        next_state(ins, m)->Some_0.mem[addr as int] == m.ac,
        forall|k: int|
            0 <= k < 16 && k != addr ==> next_state(ins, m)->Some_0.mem[k] == m.mem[k],
        next_state(ins, m)->Some_0.ac == m.ac,
        next_state(ins, m)->Some_0.dest == m.dest,
        next_state(ins, m)->Some_0.halted == m.halted,
        next_state(ins, m)->Some_0.pc == m.pc + 1,
        effect_of(ins, io, m) == (Effect::DeviceWrite { device, byte: m.ac }),
{
}

/// A step keeps the memory at its size.
pub proof fn lemma_step_keeps_memory_size(ins: Seq<Instruction>, m: Machine)
    requires
        m.mem.len() == 16,
        next_state(ins, m) is Some,
    ensures
        next_state(ins, m)->Some_0.mem.len() == 16,
{
}

pub proof fn lemma_step_past_end(ins: Seq<Instruction>, m: Machine)
    requires
        m.pc >= ins.len(),
    ensures
        next_state(ins, m) == Some(Machine { halted: true, ..m }),
        next_state(ins, next_state(ins, m)->Some_0) == next_state(ins, m),
{
}

/// A run that does not fail ends halted, and a machine that has halted
/// runs no further.
pub proof fn lemma_run_halts(ins: Seq<Instruction>, io: Seq<(String, Device)>, m: Machine)
    requires
        run_from(ins, io, m) is Some,
    ensures
        m.halted ==> run_from(ins, io, m)->Some_0 == (m, Seq::<Effect>::empty()),
        run_from(ins, io, m)->Some_0.0.halted,
    decreases steps_left(ins, m),
{
    if !m.halted {
        lemma_run_halts(ins, io, next_state(ins, m)->Some_0);
    }
}

/// What was sent before a step, then the step's effect, then the rest of
/// the run: the run as a whole.
pub open spec fn run_after(before: Seq<Effect>, rest: Option<(Machine, Seq<Effect>)>) -> Option<
    (Machine, Seq<Effect>),
> {
    match rest {
        Some((last, sent)) => Some((last, before + sent)),
        None => None,
    }
}

proof fn lemma_run_step(
    ins: Seq<Instruction>,
    io: Seq<(String, Device)>,
    m: Machine,
    next: Machine,
    before: Seq<Effect>,
)
    requires
        !m.halted,
        0 <= m.pc,
        next_state(ins, m) == Some(next),
    ensures
        steps_left(ins, next) < steps_left(ins, m),
        run_after(before, run_from(ins, io, m)) == run_after(
            before.push(effect_of(ins, io, m)),
            run_from(ins, io, next),
        ),
{
    match run_from(ins, io, next) {
        Some((last, sent)) => {
            assert(before + (seq![effect_of(ins, io, m)] + sent) =~= before.push(
                effect_of(ins, io, m),
            ) + sent);
        },
        None => {},
    }
}

pub struct Cpu<'cpu> {
    ins: &'cpu [Instruction],
    ac: u8,
    dest: u8,
    pc: usize,
    mem: [u8; 16],
    pub halted: bool,
    config: &'cpu Config,
}

impl<'cpu> Cpu<'cpu> {
    /// The registers, the memory and the halted flag.
    pub closed spec fn state(&self) -> Machine {
        Machine {
            ac: self.ac,
            dest: self.dest,
            pc: self.pc as int,
            mem: self.mem@,
            halted: self.halted,
        }
    }

    /// The program that the machine runs.
    pub closed spec fn program(&self) -> Seq<Instruction> {
        self.ins@
    }

    /// The devices that the machine was configured with.
    pub closed spec fn devices(&self) -> Seq<(String, Device)> {
        self.config.io@
    }

    /// Whether the machine was configured to have every step traced.
    pub closed spec fn tracing(&self) -> bool {
        self.config.verbose
    }

    /// A machine at the start of `ins`: registers and memory zero, not halted.
    pub fn new(config: &'cpu Config, ins: &'cpu [Instruction]) -> (r: Self)
        ensures
            r.program() == ins@,
            r.devices() == config.io@,
            r.tracing() == config.verbose,
            r.state().mem.len() == 16,
            r.state() == (Machine {
                ac: 0,
                dest: 0,
                pc: 0,
                mem: Seq::new(16, |i: int| 0u8),
                halted: false,
            }),
    {
        let mem: [u8; 16] = [0u8;16];
        assert(mem@ =~= Seq::new(16, |i: int| 0u8));
        Self { ins, ac: 0, dest: 0, pc: 0, mem, halted: false, config }
    }

    /// The memory of a machine has sixteen cells, and its program counter
    /// is not negative.
    pub proof fn lemma_state_shape(&self)
        ensures
            self.state().mem.len() == 16,
            self.state().pc >= 0,
    {
    }

    /// Whether the machine has halted.
    pub fn halted(&self) -> (r: bool)
        ensures
            r == self.state().halted,
    {
        self.halted
    }

    pub fn ac(&self) -> (r: u8)
        ensures
            r == self.state().ac,
    {
        self.ac
    }

    pub fn dest(&self) -> (r: u8)
        ensures
            r == self.state().dest,
    {
        self.dest
    }

    pub fn pc(&self) -> (r: usize)
        ensures
            r == self.state().pc,
    {
        self.pc
    }

    /// The byte of memory at `addr`, if there is one.
    pub fn mem(&self, addr: u8) -> (r: Option<u8>)
        ensures
            r == if addr < 16 {
                Some(self.state().mem[addr as int])
            } else {
                None
            },
    {
        if addr < 16 {
            Some(self.mem[addr as usize])
        } else {
            None
        }
    }

    /// Whether every step is to be traced.
    pub fn verbose(&self) -> (r: bool)
        ensures
            r == self.tracing(),
    {
        self.config.verbose
    }

    /// The instruction that the next step executes, if the program has one left.
    pub fn current(&self) -> (r: Option<Instruction>)
        ensures
            r == if self.state().pc < self.program().len() {
                Some(self.program()[self.state().pc])
            } else {
                None
            },
    {
        if self.pc < self.ins.len() {
            Some(self.ins[self.pc])
        } else {
            None
        }
    }

    /// The line that traces the next step, if the program has an
    /// instruction left for it.
    pub fn trace(&self) -> (r: Option<String>)
        ensures
            match (if self.state().pc < self.program().len() {
                Some(self.program()[self.state().pc])
            } else {
                None
            }) {
                Some(i) => r is Some && r->Some_0@ == trace_text(self.state(), i),
                None => r is None,
            },
    {
        if self.pc >= self.ins.len() {
            return None;
        }
        let cur: Instruction = self.ins[self.pc];
        let byte: u8 = match cur.encode() {
            Some(b) => b,
            None => 0,
        };
        let name = cur.to_str_lossy();
        let len: usize = name.unicode_len();
        let mut out = String::new();
        push_padded(&mut out, self.pc, 16, false, 4);
        out.append(": 0x");
        push_numeral(&mut out, byte as usize, 16, true);
        out.append(" ");
        if len < 8 {
            push_repeated(&mut out, ' ', 8 - len);
        }
        out.append(name);
        out.append(" (op=0x");
        push_numeral(&mut out, cur.op() as usize, 16, true);
        out.append(", imm=0x");
        push_numeral(&mut out, cur.imm() as usize, 16, true);
        out.append(") [ac=0x");
        push_numeral(&mut out, self.ac as usize, 16, true);
        out.append(",dest=0x");
        push_numeral(&mut out, self.dest as usize, 16, true);
        out.append("]");
        assert(out@ =~= trace_text(self.state(), cur)) by {
            assert(len >= 8 ==> repeated(' ', 8 - len) =~= Seq::<char>::empty());
        }
        Some(out)
    }

    /// Stores `val` at `addr`, and forwards it to the device mapped there.
    fn dump(&mut self, addr: u8, val: u8) -> (r: Option<Effect>)
        ensures
            final(self).ins == old(self).ins,
            final(self).config == old(self).config,
            final(self).ac == old(self).ac,
            final(self).dest == old(self).dest,
            final(self).pc == old(self).pc,
            final(self).halted == old(self).halted,
            r matches Some(effect) ==> effect.within(old(self).config.io@.len() as int),
            addr >= 16 ==> r is None && final(self).mem == old(self).mem,
            addr < 16 ==> final(self).mem@ == old(self).mem@.update(addr as int, val) && r == Some(
                match device_at(old(self).config.io@, addr) {
                    Some(device) => Effect::DeviceWrite { device, byte: val },
                    None => Effect::Idle,
                },
            ),
    {
        if addr >= 16 {
            return None;
        }
        self.mem.set(addr as usize, val);
        match self.config.device_for(addr) {
            Some(device) => Some(Effect::DeviceWrite { device, byte: val }),
            None => Some(Effect::Idle),
        }
    }

    /// Executes one instruction. Behind the end of the program the machine
    /// halts. A store or a load outside memory fails and leaves the machine
    /// as it was.
    pub fn step(&mut self) -> (r: Option<Effect>)
        ensures
            final(self).program() == old(self).program(),
            final(self).devices() == old(self).devices(),
            final(self).tracing() == old(self).tracing(),
            old(self).state().mem.len() == 16 && old(self).state().pc >= 0,
            final(self).state().mem.len() == 16 && final(self).state().pc >= 0,
            r matches Some(effect) ==> effect.within(final(self).devices().len() as int),
            match next_state(old(self).program(), old(self).state()) {
                Some(next) => final(self).state() == next && r == Some(
                    effect_of(old(self).program(), old(self).devices(), old(self).state()),
                ),
                None => r is None && final(self).state() == old(self).state(),
            },
    {
        if self.pc >= self.ins.len() {
            self.halted = true;
            return Some(Effect::Idle);
        }
        let cur: Instruction = self.ins[self.pc];
        let mut effect = Effect::Idle;
        match cur {
            Instruction::NOP => {},
            Instruction::HALT => {
                self.halted = true;
                return Some(Effect::Idle);
            },
            Instruction::LOADI { imm } => {
                self.ac = imm;
            },
            Instruction::MOV => {
                self.dest = self.ac;
            },
            Instruction::ADD => {
                self.ac = self.dest.wrapping_add(self.ac);
            },
            Instruction::SUB => {
                self.ac = self.dest.wrapping_sub(self.ac);
            },
            Instruction::ST { addr } => {
                let val: u8 = self.ac;
                match self.dump(addr, val) {
                    Some(sent) => {
                        effect = sent;
                    },
                    None => {
                        return None;
                    },
                }
            },
            Instruction::LD { addr } => {
                if addr >= 16 {
                    return None;
                }
                self.ac = self.mem[addr as usize];
            },
            Instruction::ROL { imm } => {
                self.ac = rotate_left(self.ac, imm % 16);
            },
        }
        self.pc += 1;
        Some(effect)
    }

    /// Steps until the machine has halted, and returns what the steps sent
    /// out, in order; `None` where a step fails.
    pub fn run(&mut self) -> (r: Option<Vec<Effect>>)
        ensures
            final(self).program() == old(self).program(),
            final(self).devices() == old(self).devices(),
            final(self).tracing() == old(self).tracing(),
            old(self).state().mem.len() == 16 && old(self).state().pc >= 0,
            final(self).state().mem.len() == 16 && final(self).state().pc >= 0,
            r matches Some(sent) ==> forall|k: int|
                0 <= k < sent@.len() ==> (#[trigger] sent@[k]).within(
                    final(self).devices().len() as int,
                ),
            match run_from(old(self).program(), old(self).devices(), old(self).state()) {
                Some((last, sent)) => final(self).state() == last && r is Some && r->Some_0@
                    == sent,
                None => r is None,
            },
    {
        let mut sent: Vec<Effect> = Vec::new();
        let ghost goal = run_from(self.ins@, self.config.io@, self.state());
        proof {
            match goal {
                Some((last, rest)) => {
                    assert(Seq::<Effect>::empty() + rest =~= rest);
                },
                None => {},
            }
        }
        while !self.halted
            invariant
                self.ins@ == old(self).ins@,
                self.config.io@ == old(self).config.io@,
                self.config.verbose == old(self).config.verbose,
                forall|k: int|
                    0 <= k < sent@.len() ==> (#[trigger] sent@[k]).within(
                        self.config.io@.len() as int,
                    ),
                goal == run_from(old(self).ins@, old(self).config.io@, old(self).state()),
                goal == run_after(sent@, run_from(self.ins@, self.config.io@, self.state())),
            decreases steps_left(self.ins@, self.state()),
        {
            let ghost before = self.state();
            match self.step() {
                None => {
                    return None;
                },
                Some(effect) => {
                    proof {
                        lemma_run_step(self.ins@, self.config.io@, before, self.state(), sent@);
                    }
                    sent.push(effect);
                },
            }
        }
        proof {
            assert(sent@ + Seq::<Effect>::empty() =~= sent@);
        }
        Some(sent)
    }
}

/// Rotates `x` left by `n` places over its eight bits.
pub fn rotate_left(x: u8, n: u8) -> (r: u8)
    ensures
        r == rotate_left_8(x, n),
{
    let k: u8 = n % 8;
    if k == 0 {
        x
    } else {
        (x << k) | (x >> (8 - k))
    }
}

} // verus!
