//! The execution core and the memory peripheral.
//!
//! The processor owns the eight-cell register file and drives every memory
//! access through the bus protocol: a synchronous request/response exchange
//! with the peripheral. The peripheral owns the 65536-word memory and a
//! memory-mapped console device polled once per machine cycle.
//!
//! One machine step is modelled by [`spec_step`], which gives the exact
//! register file, memory, and outcome after executing the instruction under
//! the program counter; `exe_ins` is verified against it.

#![verifier::loop_isolation(false)]

use vstd::prelude::*;

use crate::isa::MEM_SIZE;
use crate::isa::NUM_REGS;
use crate::isa::OP_ADD;
use crate::isa::OP_AND;
use crate::isa::OP_CPY;
use crate::isa::OP_HLT;
use crate::isa::OP_JNZ;
use crate::isa::OP_LST;
use crate::isa::OP_NOR;
use crate::isa::OP_PNT;
use crate::isa::OP_SAV;
use crate::isa::OP_SET;
use crate::isa::OP_SUB;
use crate::isa::OP_XOR;
use crate::isa::OUT_DATA_ADDR;
use crate::isa::OUT_FLAG_ADDR;

verus! {

/// A request from the execution core to a peripheral.
#[derive(Clone, Copy, Debug, PartialEq, Eq, Structural)]
pub enum Query {
    /// Ask for the word at an address.
    LoadRequest(u16),
    /// Ask to store a value (first field) at an address (second field).
    SaveRequest(u16, u16),
}

/// A peripheral's answer to a [`Query`].
#[derive(Clone, Copy, Debug, PartialEq, Eq, Structural)]
pub enum Response {
    /// The loaded word.
    Data(u16),
    /// A store was performed.
    Good,
    /// The peripheral could not service the request.
    Fail(u16),
}

/// One piece of console output produced by a machine cycle: either both
/// bytes of the data word or only its low byte.
#[derive(Clone, Copy, Debug, PartialEq, Eq, Structural)]
pub enum ConsoleOut {
    /// High byte and low byte, printed in that order.
    Pair(u8, u8),
    /// Low byte only.
    Single(u8),
}

/// `x + k` wrapped to 16 bits.
pub open spec fn wadd(x: u16, k: int) -> u16 {
    ((x + k) % 65536) as u16
}

/// Wrapping 16-bit addition.
pub open spec fn add16(x: u16, y: u16) -> u16 {
    ((x + y) % 65536) as u16
}

/// Wrapping 16-bit subtraction.
pub open spec fn sub16(x: u16, y: u16) -> u16 {
    ((x + 65536 - y) % 65536) as u16
}

fn wrap_add16(x: u16, k: u16) -> (r: u16)
    ensures
        r == wadd(x, k as int),
{
    ((x as u32 + k as u32) % 65536) as u16
}

/// Result of the ALU for opcodes `OP_ADD` through `OP_LST`.
pub open spec fn spec_alu(op: u16, x: u16, y: u16) -> u16
    recommends
        OP_ADD <= op <= OP_LST,
{
    if op == OP_ADD {
        add16(x, y)
    } else if op == OP_SUB {
        sub16(x, y)
    } else if op == OP_XOR {
        x ^ y
    } else if op == OP_NOR {
        !(x | y)
    } else if op == OP_AND {
        x & y
    } else {
        if x < y {
            1u16
        } else {
            0u16
        }
    }
}

/// The machine state after one instruction: register file, memory, and
/// `Ok(())` to keep running, `Err(0)` for a normal halt, or a nonzero
/// fault code.
pub struct StepOutcome {
    pub regs: Seq<u16>,
    pub mem: Seq<u16>,
    pub result: Result<(), u16>,
}

/// One fetch-decode-execute step of the core against a memory that serves
/// every 16-bit address.
///
/// The opcode is fetched from the word under the program counter
/// (register 1). `HLT` halts with code 0 and an unrecognized opcode halts
/// with fault code 1, both leaving all state unchanged. Every other
/// instruction first advances the counter past its two operand words; an
/// out-of-range register operand then halts with fault code 2, leaving
/// memory and all registers but the advanced counter unchanged.
pub open spec fn spec_step(regs: Seq<u16>, mem: Seq<u16>) -> StepOutcome
    recommends
        regs.len() == NUM_REGS,
        mem.len() == MEM_SIZE,
{
    let pc = regs[1];
    let op = mem[pc as int];
    if op == OP_HLT {
        StepOutcome { regs, mem, result: Err(0u16) }
    } else if op > OP_JNZ {
        StepOutcome { regs, mem, result: Err(1u16) }
    } else {
        let a1 = mem[wadd(pc, 1) as int];
        let a2 = mem[wadd(pc, 2) as int];
        let regs1 = regs.update(1, wadd(pc, 3));
        if op == OP_PNT {
            if a1 >= 8 || a2 >= 8 {
                StepOutcome { regs: regs1, mem, result: Err(2u16) }
            } else {
                let data = mem[regs1[a1 as int] as int];
                StepOutcome { regs: regs1.update(a2 as int, data), mem, result: Ok(()) }
            }
        } else if op == OP_SAV {
            if a1 >= 8 || a2 >= 8 {
                StepOutcome { regs: regs1, mem, result: Err(2u16) }
            } else {
                let mem1 = mem.update(regs1[a2 as int] as int, regs1[a1 as int]);
                StepOutcome { regs: regs1, mem: mem1, result: Ok(()) }
            }
        } else if op == OP_SET {
            if a1 >= 8 {
                StepOutcome { regs: regs1, mem, result: Err(2u16) }
            } else {
                StepOutcome { regs: regs1.update(a1 as int, a2), mem, result: Ok(()) }
            }
        } else if op == OP_CPY {
            if a1 >= 8 || a2 >= 8 {
                StepOutcome { regs: regs1, mem, result: Err(2u16) }
            } else {
                StepOutcome {
                    regs: regs1.update(a2 as int, regs1[a1 as int]),
                    mem,
                    result: Ok(()),
                }
            }
        } else if op == OP_JNZ {
            if a1 >= 8 || a2 >= 8 {
                StepOutcome { regs: regs1, mem, result: Err(2u16) }
            } else if regs1[a1 as int] != 0 {
                StepOutcome { regs: regs1.update(1, regs1[a2 as int]), mem, result: Ok(()) }
            } else {
                StepOutcome { regs: regs1, mem, result: Ok(()) }
            }
        } else {
            if a1 >= 8 || a2 >= 8 {
                StepOutcome { regs: regs1, mem, result: Err(2u16) }
            } else {
                let out = spec_alu(op, regs1[a1 as int], regs1[a2 as int]);
                StepOutcome { regs: regs1.update(0, out), mem, result: Ok(()) }
            }
        }
    }
}

/// ALU correctness: for any 16-bit values `x` and `y` held in two
/// register operands (neither the program counter), one step of an ALU
/// opcode leaves memory untouched, reports `Ok`, advances the counter by
/// three, and puts the exact arithmetic result in register 0: the wrapping
/// sum or difference modulo 65536, the bitwise combination, or the
/// unsigned comparison bit.
pub proof fn lemma_alu_step(regs: Seq<u16>, mem: Seq<u16>, op: u16)
    requires
        regs.len() == NUM_REGS,
        mem.len() == MEM_SIZE,
        mem[regs[1] as int] == op,
        OP_ADD <= op <= OP_LST,
        mem[wadd(regs[1], 1) as int] < 8,
        mem[wadd(regs[1], 2) as int] < 8,
        mem[wadd(regs[1], 1) as int] != 1,
        mem[wadd(regs[1], 2) as int] != 1,
    ensures
        ({
            let r1 = mem[wadd(regs[1], 1) as int] as int;
            let r2 = mem[wadd(regs[1], 2) as int] as int;
            let x = regs[r1];
            let y = regs[r2];
            let o = spec_step(regs, mem);
            &&& o.result == Ok::<(), u16>(())
            &&& o.mem == mem
            &&& o.regs == regs.update(1, wadd(regs[1], 3)).update(0, spec_alu(op, x, y))
            &&& op == OP_ADD ==> o.regs[0] == (x + y) % 65536
            &&& op == OP_SUB ==> o.regs[0] == (x - y) % 65536
            &&& op == OP_XOR ==> o.regs[0] == (x ^ y)
            &&& op == OP_NOR ==> o.regs[0] == !(x | y)
            &&& op == OP_AND ==> o.regs[0] == (x & y)
            &&& op == OP_LST ==> o.regs[0] == (if x < y {
                1u16
            } else {
                0u16
            })
        }),
{
    let r1 = mem[wadd(regs[1], 1) as int] as int;
    let r2 = mem[wadd(regs[1], 2) as int] as int;
    let x = regs[r1];
    let y = regs[r2];
    if op == OP_SUB {
        assert(sub16(x, y) == (x - y) % 65536) by {
            vstd::arithmetic::div_mod::lemma_mod_add_multiples_vanish(x - y, 65536);
        }
    }
}

/// Branch semantics: one step of `JNZ` with two register operands that
/// are not the program counter leaves the counter advanced by exactly
/// three words when the tested register is zero, and set exactly to the
/// target register's value when it is nonzero; memory and the other
/// registers are untouched either way.
pub proof fn lemma_branch_step(regs: Seq<u16>, mem: Seq<u16>)
    requires
        regs.len() == NUM_REGS,
        mem.len() == MEM_SIZE,
        mem[regs[1] as int] == OP_JNZ,
        mem[wadd(regs[1], 1) as int] < 8,
        mem[wadd(regs[1], 2) as int] < 8,
        mem[wadd(regs[1], 1) as int] != 1,
        mem[wadd(regs[1], 2) as int] != 1,
    ensures
        ({
            let r1 = mem[wadd(regs[1], 1) as int] as int;
            let r2 = mem[wadd(regs[1], 2) as int] as int;
            let o = spec_step(regs, mem);
            &&& o.result == Ok::<(), u16>(())
            &&& o.mem == mem
            &&& regs[r1] == 0 ==> o.regs == regs.update(1, wadd(regs[1], 3))
            &&& regs[r1] == 0 ==> o.regs[1] == (regs[1] + 3) % 65536
            &&& regs[r1] != 0 ==> o.regs == regs.update(1, wadd(regs[1], 3)).update(1, regs[r2])
            &&& regs[r1] != 0 ==> o.regs[1] == regs[r2]
            &&& forall|i: int| 0 <= i < NUM_REGS && i != 1 ==> o.regs[i] == regs[i]
        }),
{
}

/// Fault isolation: an instruction whose register operand is out of
/// range (the second operand of `SET` is an immediate and exempt) halts
/// with fault code 2, writes no memory, and changes no register besides
/// the program counter, which has already advanced past the instruction.
pub proof fn lemma_fault_isolation(regs: Seq<u16>, mem: Seq<u16>)
    requires
        regs.len() == NUM_REGS,
        mem.len() == MEM_SIZE,
        OP_PNT <= mem[regs[1] as int] <= OP_JNZ,
        mem[wadd(regs[1], 1) as int] >= 8 || (mem[wadd(regs[1], 2) as int] >= 8 && mem[regs[1] as int]
            != OP_SET),
    ensures
        ({
            let o = spec_step(regs, mem);
            &&& o.result == Err::<(), u16>(2u16)
            &&& o.mem == mem
            &&& o.regs == regs.update(1, wadd(regs[1], 3))
            &&& forall|i: int| 0 <= i < NUM_REGS && i != 1 ==> o.regs[i] == regs[i]
        }),
{
}

/// The memory peripheral: a 65536-word store that answers bus requests
/// and drives a memory-mapped console device.
pub struct PrintMemory {
    mem: Vec<u16>,
}

impl View for PrintMemory {
    type V = Seq<u16>;

    closed spec fn view(&self) -> Seq<u16> {
        self.mem@
    }
}

/// Console output decided by one peripheral cycle: flag 2 publishes both
/// bytes of the data word, any other nonzero flag only the low byte.
pub open spec fn spec_cycle_out(mem: Seq<u16>) -> Option<ConsoleOut>
    recommends
        mem.len() == MEM_SIZE,
{
    let flag = mem[OUT_FLAG_ADDR as int];
    let data = mem[OUT_DATA_ADDR as int];
    if flag == 2 {
        Some(ConsoleOut::Pair((data / 256) as u8, (data % 256) as u8))
    } else if flag != 0 {
        Some(ConsoleOut::Single((data % 256) as u8))
    } else {
        None
    }
}

/// Memory after one peripheral cycle: a raised output flag is reset.
pub open spec fn spec_cycle_mem(mem: Seq<u16>) -> Seq<u16>
    recommends
        mem.len() == MEM_SIZE,
{
    if mem[OUT_FLAG_ADDR as int] != 0 {
        mem.update(OUT_FLAG_ADDR as int, 0u16)
    } else {
        mem
    }
}

impl PrintMemory {
    /// The peripheral serves the full 16-bit address space.
    pub open spec fn wf(&self) -> bool {
        self@.len() == MEM_SIZE
    }

    /// Wrap a fully populated memory image.
    pub fn from_data(mem: Vec<u16>) -> (r: PrintMemory)
        requires
            mem@.len() == MEM_SIZE,
        ensures
            r.wf(),
            r@ == mem@,
    {
        PrintMemory { mem }
    }

    /// The word at `a`; every 16-bit address is in range.
    pub fn word(&self, a: u16) -> (r: u16)
        requires
            self.wf(),
        ensures
            r == self@[a as int],
    {
        self.mem[a as usize]
    }

    /// Serve one bus request: a load answers with the addressed word, a
    /// store writes the addressed word and acknowledges. Every 16-bit
    /// address is serviceable, so the request never fails.
    pub fn handle(&mut self, incoming: Query) -> (r: Result<Response, u16>)
        requires
            old(self).wf(),
        ensures
            final(self).wf(),
            (match incoming {
                Query::LoadRequest(a) => final(self)@ == old(self)@ && r == Ok::<Response, u16>(
                    Response::Data(old(self)@[a as int]),
                ),
                Query::SaveRequest(v, a) => final(self)@ == old(self)@.update(a as int, v) && r
                    == Ok::<Response, u16>(Response::Good),
            }),
    {
        match incoming {
            Query::LoadRequest(x) => {
                if (x as usize) < self.mem.len() {
                    Ok(Response::Data(self.mem[x as usize]))
                } else {
                    Ok(Response::Fail(0))
                }
            },
            Query::SaveRequest(x, y) => {
                if (y as usize) < self.mem.len() {
                    self.mem.set(y as usize, x);
                    Ok(Response::Good)
                } else {
                    Ok(Response::Fail(0))
                }
            },
        }
    }

    /// One console-device cycle: poll the output flag, decide what to
    /// print, and reset the flag. The caller performs the actual output.
    pub fn cycle(&mut self) -> (r: Option<ConsoleOut>)
        requires
            old(self).wf(),
        ensures
            final(self).wf(),
            final(self)@ == spec_cycle_mem(old(self)@),
            r == spec_cycle_out(old(self)@),
    {
        let flag = self.mem[OUT_FLAG_ADDR as usize];
        if flag == 2 {
            let data = self.mem[OUT_DATA_ADDR as usize];
            self.mem.set(OUT_FLAG_ADDR as usize, 0);
            Some(ConsoleOut::Pair((data / 256) as u8, (data % 256) as u8))
        } else if flag != 0 {
            let data = self.mem[OUT_DATA_ADDR as usize];
            self.mem.set(OUT_FLAG_ADDR as usize, 0);
            Some(ConsoleOut::Single((data % 256) as u8))
        } else {
            None
        }
    }
}

/// Memory after a program image is written word by word from `offset`,
/// addresses wrapping at the memory size.
pub open spec fn spec_load(mem: Seq<u16>, prg: Seq<u16>, offset: u16) -> Seq<u16>
    recommends
        mem.len() == MEM_SIZE,
    decreases prg.len(),
{
    if prg.len() == 0 {
        mem
    } else {
        spec_load(mem, prg.drop_last(), offset).update(
            ((offset + prg.len() - 1) % (MEM_SIZE as int)) as int,
            prg.last(),
        )
    }
}

/// Write a program image into memory starting at `offset`, wrapping
/// addresses modulo the memory size.
pub fn load(mem: &mut PrintMemory, program: &Vec<u16>, offset: u16)
    requires
        old(mem).wf(),
    ensures
        final(mem).wf(),
        final(mem)@ == spec_load(old(mem)@, program@, offset),
{
    let len = program.len();
    let mut i: usize = 0;
    while i < len
        invariant
            i <= len,
            mem.wf(),
            mem@ == spec_load(old(mem)@, program@.take(i as int), offset),
        decreases len - i,
    {
        let pos: u32 = (offset as u32 + (i % MEM_SIZE) as u32) % (MEM_SIZE as u32);
        proof {
            vstd::arithmetic::div_mod::lemma_add_mod_noop(offset as int, i as int, MEM_SIZE as int);
        }
        let v = program[i];
        let ghost before = mem@;
        let _ = mem.handle(Query::SaveRequest(v, pos as u16));
        proof {
            assert(program@.take(i as int + 1).drop_last() =~= program@.take(i as int));
        }
        i = i + 1;
    }
    proof {
        assert(program@.take(len as int) =~= program@);
    }
}

/// The execution core: the register file and the fetch-decode-execute
/// cycle. Register 0 collects ALU results and register 1 is the program
/// counter; all memory traffic goes through the bus.
pub struct MainProcessor {
    registers: Vec<u16>,
}

impl View for MainProcessor {
    type V = Seq<u16>;

    closed spec fn view(&self) -> Seq<u16> {
        self.registers@
    }
}

impl MainProcessor {
    /// The register file always holds exactly eight cells.
    pub open spec fn wf(&self) -> bool {
        self@.len() == NUM_REGS
    }

    /// A fresh core with every register zero.
    pub fn new() -> (r: MainProcessor)
        ensures
            r.wf(),
            r@ =~= Seq::new(NUM_REGS as nat, |i: int| 0u16),
    {
        let mut registers: Vec<u16> = Vec::new();
        let mut i: usize = 0;
        while i < NUM_REGS
            invariant
                i <= NUM_REGS,
                registers@ =~= Seq::new(i as nat, |k: int| 0u16),
            decreases NUM_REGS - i,
        {
            registers.push(0);
            proof {
                assert(registers@ =~= Seq::new(i as nat + 1, |k: int| 0u16));
            }
            i = i + 1;
        }
        MainProcessor { registers }
    }

    /// The value of register `i`.
    pub fn reg(&self, i: usize) -> (r: u16)
        requires
            self.wf(),
            i < NUM_REGS,
        ensures
            r == self@[i as int],
    {
        self.registers[i]
    }

    /// Overwrite register `i`.
    pub fn set_reg(&mut self, i: usize, v: u16)
        requires
            old(self).wf(),
            i < NUM_REGS,
        ensures
            final(self).wf(),
            final(self)@ == old(self)@.update(i as int, v),
    {
        self.registers.set(i, v);
    }

    /// Execute one instruction, issuing every memory access as a bus
    /// request to the peripheral. Returns `Ok(())` to keep running,
    /// `Err(0)` on `HLT`, `Err(1)` on an unrecognized opcode, `Err(2)` on
    /// an out-of-range register operand, and `Err(3)` if the bus ever
    /// fails; the new state is exactly [`spec_step`] of the old.
    pub fn exe_ins(&mut self, channel: &mut PrintMemory) -> (r: Result<(), u16>)
        requires
            old(self).wf(),
            old(channel).wf(),
        ensures
            final(self).wf(),
            final(channel).wf(),
            final(self)@ == spec_step(old(self)@, old(channel)@).regs,
            final(channel)@ == spec_step(old(self)@, old(channel)@).mem,
            r == spec_step(old(self)@, old(channel)@).result,
    {
        let pc = self.registers[1];
        let ins = match channel.handle(Query::LoadRequest(pc)) {
            Ok(Response::Data(x)) => x,
            _ => {
                return Err(3);
            },
        };
        if ins == OP_HLT {
            return Err(0);
        }
        if ins > OP_JNZ {
            return Err(1);
        }
        let a1 = match channel.handle(Query::LoadRequest(wrap_add16(pc, 1))) {
            Ok(Response::Data(x)) => x,
            _ => {
                return Err(3);
            },
        };
        let a2 = match channel.handle(Query::LoadRequest(wrap_add16(pc, 2))) {
            Ok(Response::Data(x)) => x,
            _ => {
                return Err(3);
            },
        };
        self.registers.set(1, wrap_add16(pc, 3));
        if ins == OP_PNT {
            if a1 >= 8 {
                return Err(2);
            }
            let loc = self.registers[a1 as usize];
            let data = match channel.handle(Query::LoadRequest(loc)) {
                Ok(Response::Data(x)) => x,
                _ => {
                    return Err(3);
                },
            };
            if a2 >= 8 {
                return Err(2);
            }
            self.registers.set(a2 as usize, data);
            Ok(())
        } else if ins == OP_SAV {
            if a1 >= 8 || a2 >= 8 {
                return Err(2);
            }
            let data = self.registers[a1 as usize];
            let loc = self.registers[a2 as usize];
            let _ = channel.handle(Query::SaveRequest(data, loc));
            Ok(())
        } else if ins == OP_SET {
            if a1 >= 8 {
                return Err(2);
            }
            self.registers.set(a1 as usize, a2);
            Ok(())
        } else if ins == OP_CPY {
            if a1 >= 8 || a2 >= 8 {
                return Err(2);
            }
            let data = self.registers[a1 as usize];
            self.registers.set(a2 as usize, data);
            Ok(())
        } else if ins == OP_JNZ {
            if a1 >= 8 || a2 >= 8 {
                return Err(2);
            }
            let cond = self.registers[a1 as usize];
            let target = self.registers[a2 as usize];
            if cond != 0 {
                self.registers.set(1, target);
            }
            Ok(())
        } else {
            if a1 >= 8 || a2 >= 8 {
                return Err(2);
            }
            let x = self.registers[a1 as usize];
            let y = self.registers[a2 as usize];
            let out: u16 = if ins == OP_ADD {
                ((x as u32 + y as u32) % 65536) as u16
            } else if ins == OP_SUB {
                ((x as u32 + 65536 - y as u32) % 65536) as u16
            } else if ins == OP_XOR {
                x ^ y
            } else if ins == OP_NOR {
                !(x | y)
            } else if ins == OP_AND {
                x & y
            } else {
                if x < y {
                    1
                } else {
                    0
                }
            };
            self.registers.set(0, out);
            Ok(())
        }
    }
}

/// The machine after at most `fuel` whole cycles: register file, memory,
/// the halt code if the core halted within the budget, and the console
/// output produced along the way.
pub struct RunOutcome {
    pub regs: Seq<u16>,
    pub mem: Seq<u16>,
    pub halt: Option<u16>,
    pub outs: Seq<ConsoleOut>,
}

/// Up to `fuel` machine cycles, each one processor step followed by one
/// peripheral cycle; a halting step ends the run at once, before any
/// further peripheral cycle.
pub open spec fn spec_run(regs: Seq<u16>, mem: Seq<u16>, fuel: nat) -> RunOutcome
    recommends
        regs.len() == NUM_REGS,
        mem.len() == MEM_SIZE,
    decreases fuel,
{
    if fuel == 0 {
        RunOutcome { regs, mem, halt: None, outs: Seq::empty() }
    } else {
        let s = spec_step(regs, mem);
        match s.result {
            Err(code) => RunOutcome { regs: s.regs, mem: s.mem, halt: Some(code), outs: Seq::empty() },
            Ok(u) => {
                let here = match spec_cycle_out(s.mem) {
                    Some(c) => seq![c],
                    None => Seq::empty(),
                };
                let rest = spec_run(s.regs, spec_cycle_mem(s.mem), (fuel - 1) as nat);
                RunOutcome { regs: rest.regs, mem: rest.mem, halt: rest.halt, outs: here + rest.outs }
            },
        }
    }
}

/// Run the machine for at most `max_cycles` cycles, collecting the
/// console output; stops early with the halt code if the core halts.
pub fn run_for(proc: &mut MainProcessor, mem: &mut PrintMemory, max_cycles: usize) -> (r: (
    Option<u16>,
    Vec<ConsoleOut>,
))
    requires
        old(proc).wf(),
        old(mem).wf(),
    ensures
        final(proc).wf(),
        final(mem).wf(),
        ({
            let o = spec_run(old(proc)@, old(mem)@, max_cycles as nat);
            &&& final(proc)@ == o.regs
            &&& final(mem)@ == o.mem
            &&& r.0 == o.halt
            &&& r.1@ == o.outs
        }),
{
    let mut outs: Vec<ConsoleOut> = Vec::new();
    let mut n: usize = 0;
    while n < max_cycles
        invariant
            n <= max_cycles,
            proc.wf(),
            mem.wf(),
            ({
                let o = spec_run(old(proc)@, old(mem)@, max_cycles as nat);
                let rest = spec_run(proc@, mem@, (max_cycles - n) as nat);
                &&& o.regs == rest.regs
                &&& o.mem == rest.mem
                &&& o.halt == rest.halt
                &&& o.outs == outs@ + rest.outs
            }),
        decreases max_cycles - n,
    {
        let step = proc.exe_ins(mem);
        match step {
            Err(code) => {
                proof {
                    let o = spec_run(old(proc)@, old(mem)@, max_cycles as nat);
                    assert(o.outs =~= outs@);
                }
                return (Some(code), outs);
            },
            Ok(u) => {
                let here = mem.cycle();
                match here {
                    Some(c) => {
                        outs.push(c);
                    },
                    None => {},
                }
                proof {
                    let o = spec_run(old(proc)@, old(mem)@, max_cycles as nat);
                    let rest = spec_run(proc@, mem@, (max_cycles - n - 1) as nat);
                    assert(o.outs =~= outs@ + rest.outs);
                }
                n = n + 1;
            },
        }
    }
    proof {
        let o = spec_run(old(proc)@, old(mem)@, max_cycles as nat);
        assert(o.outs =~= outs@);
    }
    (None, outs)
}

} // verus!
