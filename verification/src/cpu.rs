//! CPU engine: 16 general registers, four condition flags, and a
//! single-step fetch-decode-execute operation covering the data-processing
//! and software-interrupt instruction families.

use vstd::prelude::*;

use crate::mem::{MemFault, Memory, MemoryFlags, PAGE_SIZE};

verus! {

/// What one successful step asks of the surrounding run loop.
pub enum StepOutcome {
    /// The instruction completed (or its condition failed): keep stepping.
    Proceed,
    /// The guest requested process termination with the given exit code.
    Exit(u32),
    /// The guest requested a write of these bytes to stream 1 (standard
    /// output) or 2 (standard error); execution continues afterwards.
    Write(u32, Vec<u8>),
}

/// An unrecoverable fault: the run loop aborts the emulated process.
#[derive(Clone, Copy, PartialEq, Eq, Structural, Debug)]
pub enum CpuFault {
    /// The instruction fetch touched a page without read+execute permission.
    Fetch(MemFault),
    /// A branch-and-exchange form was recognized but is not implemented.
    BranchExchangeUnimplemented(u32),
    /// The opcode class of this word has no handler.
    UnimplementedInstruction(u32),
    /// The data-processing word asked to update the condition flags.
    FlagUpdateUnimplemented(u32),
    /// A comparison opcode (TST/TEQ/CMP/CMN) is not implemented.
    ComparisonUnimplemented(u32),
    /// The syscall number in register 7 has no handler.
    UnimplementedSyscall(u32),
    /// A write syscall named a byte range running past the address space.
    WriteRangeFault,
    /// A write syscall touched a page without read permission.
    WriteFault(MemFault),
    /// Advancing the program counter would run past the address space.
    ProgramCounterOverflow,
}

/// The truncation of an unbounded integer to 32 bits.
pub open spec fn wrap32(x: int) -> u32 {
    (x % 0x1_0000_0000) as u32
}

/// Logical left shift.
pub open spec fn spec_lsl32(x: u32, s: u32) -> u32 {
    x << s
}

/// Logical right shift.
pub open spec fn spec_lsr32(x: u32, s: u32) -> u32 {
    x >> s
}

/// Arithmetic right shift: the sign bit fills the vacated positions.
pub open spec fn spec_asr32(x: u32, s: u32) -> u32 {
    if x >> 31 == 0 {
        x >> s
    } else {
        (x >> s) | !(0xFFFF_FFFFu32 >> s)
    }
}

/// Rotate right.
pub open spec fn spec_ror32(x: u32, s: u32) -> u32 {
    if s == 0 {
        x
    } else {
        (x >> s) | (x << ((32 - s) as u32))
    }
}

fn lsl32(x: u32, s: u32) -> (r: u32)
    requires
        s < 32,
    ensures
        r == spec_lsl32(x, s),
{
    x << s
}

fn lsr32(x: u32, s: u32) -> (r: u32)
    requires
        s < 32,
    ensures
        r == spec_lsr32(x, s),
{
    x >> s
}

fn asr32(x: u32, s: u32) -> (r: u32)
    requires
        s < 32,
    ensures
        r == spec_asr32(x, s),
{
    if x >> 31 == 0 {
        x >> s
    } else {
        (x >> s) | !(0xFFFF_FFFFu32 >> s)
    }
}

fn ror32(x: u32, s: u32) -> (r: u32)
    requires
        s < 32,
    ensures
        r == spec_ror32(x, s),
{
    if s == 0 {
        x
    } else {
        (x >> s) | (x << (32 - s))
    }
}

fn wrap_add(a: u32, b: u32) -> (r: u32)
    ensures
        r == wrap32(a as int + b as int),
{
    (((a as u64) + (b as u64)) % 0x1_0000_0000u64) as u32
}

fn wrap_add_carry(a: u32, b: u32, c: bool) -> (r: u32)
    ensures
        r == wrap32(a as int + b as int + (if c {
            1int
        } else {
            0int
        })),
{
    let cv: u64 = if c {
        1
    } else {
        0
    };
    (((a as u64) + (b as u64) + cv) % 0x1_0000_0000u64) as u32
}

fn wrap_sub(a: u32, b: u32) -> (r: u32)
    ensures
        r == wrap32(a as int - b as int),
{
    proof {
        vstd::arithmetic::div_mod::lemma_mod_add_multiples_vanish(
            a as int - b as int,
            0x1_0000_0000,
        );
    }
    (((a as u64) + 0x1_0000_0000u64 - (b as u64)) % 0x1_0000_0000u64) as u32
}

fn wrap_sub_carry(a: u32, b: u32, c: bool) -> (r: u32)
    ensures
        r == wrap32(a as int - b as int + (if c {
            1int
        } else {
            0int
        }) - 1),
{
    let cv: u64 = if c {
        1
    } else {
        0
    };
    proof {
        vstd::arithmetic::div_mod::lemma_mod_add_multiples_vanish(
            a as int - b as int + (if c {
                1int
            } else {
                0int
            }) - 1,
            0x1_0000_0000,
        );
    }
    (((a as u64) + 0x1_0000_0000u64 + cv - 1 - (b as u64)) % 0x1_0000_0000u64) as u32
}

/// The standard condition table: whether an instruction with this 4-bit
/// condition code executes under the given flags. The all-ones code is the
/// reserved/unconditional space and never executes the conditional body.
pub open spec fn spec_cond_holds(code: u32, z: bool, c: bool, n: bool, v: bool) -> bool {
    if code == 0 {
        z
    } else if code == 1 {
        !z
    } else if code == 2 {
        c
    } else if code == 3 {
        !c
    } else if code == 4 {
        n
    } else if code == 5 {
        !n
    } else if code == 6 {
        v
    } else if code == 7 {
        !v
    } else if code == 8 {
        c && !z
    } else if code == 9 {
        !c || z
    } else if code == 10 {
        n == v
    } else if code == 11 {
        n != v
    } else if code == 12 {
        !z && (n == v)
    } else if code == 13 {
        z || (n != v)
    } else if code == 14 {
        true
    } else {
        false
    }
}

/// Evaluate a 4-bit condition code against the four flags.
pub fn condition_passes(code: u32, z: bool, c: bool, n: bool, v: bool) -> (r: bool)
    ensures
        r == spec_cond_holds(code, z, c, n, v),
{
    if code == 0 {
        z
    } else if code == 1 {
        !z
    } else if code == 2 {
        c
    } else if code == 3 {
        !c
    } else if code == 4 {
        n
    } else if code == 5 {
        !n
    } else if code == 6 {
        v
    } else if code == 7 {
        !v
    } else if code == 8 {
        c && !z
    } else if code == 9 {
        !c || z
    } else if code == 10 {
        n == v
    } else if code == 11 {
        n != v
    } else if code == 12 {
        !z && (n == v)
    } else if code == 13 {
        z || (n != v)
    } else if code == 14 {
        true
    } else {
        false
    }
}

/// The opcode-class field, bits 27:20.
pub open spec fn op_class(op: u32) -> u32 {
    (op >> 20) & 0xFF
}

/// The branch-and-exchange bit pattern.
pub open spec fn is_bx(op: u32) -> bool {
    (op >> 4) & 0xFFFFFF == 0x12FFF1
}

/// Data-processing immediate-operand flag, bit 25.
pub open spec fn dp_immediate(op: u32) -> bool {
    (op >> 25) & 1 == 1
}

/// Data-processing 4-bit ALU opcode, bits 24:21.
pub open spec fn dp_opcode(op: u32) -> u32 {
    (op >> 21) & 0xF
}

/// Data-processing set-condition-codes flag, bit 20.
pub open spec fn dp_setcc(op: u32) -> bool {
    (op >> 20) & 1 == 1
}

/// First-operand register index, bits 19:16.
pub open spec fn dp_rn(op: u32) -> u32 {
    (op >> 16) & 0xF
}

/// Destination register index, bits 15:12.
pub open spec fn dp_rd(op: u32) -> u32 {
    (op >> 12) & 0xF
}

/// The second operand: a rotated 8-bit immediate, or a register value put
/// through one of the four shift kinds, the amount coming from a 5-bit
/// immediate or from the low 5 bits of a named register's low byte.
pub open spec fn spec_op2(regs: Seq<u32>, op: u32) -> u32 {
    if dp_immediate(op) {
        spec_ror32(op & 0xFF, ((2 * ((op >> 8) & 0xF)) as u32))
    } else {
        let rmv = regs[(op & 0xF) as int];
        let amt = if (op >> 4) & 1 == 1 {
            regs[((op >> 8) & 0xF) as int] & 0x1F
        } else {
            (op >> 7) & 0x1F
        };
        let st = (op >> 5) & 3;
        if st == 0 {
            spec_lsl32(rmv, amt)
        } else if st == 1 {
            spec_lsr32(rmv, amt)
        } else if st == 2 {
            spec_asr32(rmv, amt)
        } else {
            spec_ror32(rmv, amt)
        }
    }
}

/// The ALU result for the given 4-bit opcode, operands, and carry flag, in
/// wraparound 32-bit unsigned arithmetic. Comparison opcodes (8 through 11)
/// never reach the ALU; their slot here is arbitrary.
pub open spec fn spec_alu(opcode: u32, op1: u32, op2: u32, c: bool) -> u32 {
    let cv: int = if c {
        1
    } else {
        0
    };
    if opcode == 0 {
        op1 & op2
    } else if opcode == 1 {
        op1 ^ op2
    } else if opcode == 2 {
        wrap32(op1 as int - op2 as int)
    } else if opcode == 3 {
        wrap32(op2 as int - op1 as int)
    } else if opcode == 4 {
        wrap32(op1 as int + op2 as int)
    } else if opcode == 5 {
        wrap32(op1 as int + op2 as int + cv)
    } else if opcode == 6 {
        wrap32(op1 as int - op2 as int + cv - 1)
    } else if opcode == 7 {
        wrap32(op2 as int - op1 as int + cv - 1)
    } else if opcode == 12 {
        op1 | op2
    } else if opcode == 13 {
        op2
    } else if opcode == 14 {
        op1 & !op2
    } else if opcode == 15 {
        !op2
    } else {
        0
    }
}

/// The register file and condition flags of the emulated core. Register 13
/// is conventionally the stack pointer, 14 the link register, 15 the
/// program counter.
pub struct Cpu {
    pub registers: Vec<u32>,
    pub z: bool,
    pub c: bool,
    pub n: bool,
    pub v: bool,
}

impl Cpu {
    /// Exactly sixteen registers.
    pub open spec fn wf(self) -> bool {
        self.registers@.len() == 16
    }

    pub open spec fn flags_eq(self, other: Cpu) -> bool {
        self.z == other.z && self.c == other.c && self.n == other.n && self.v == other.v
    }

    /// A fresh core: every register zero, every flag clear.
    pub fn new() -> (r: Cpu)
        ensures
            r.wf(),
            forall|i: int| 0 <= i < 16 ==> r.registers@[i] == 0,
            !r.z && !r.c && !r.n && !r.v,
    {
        let mut registers: Vec<u32> = Vec::new();
        let mut i: usize = 0;
        while i < 16
            invariant
                registers@.len() == i,
                i <= 16,
                forall|t: int| 0 <= t < i ==> registers@[t] == 0,
            decreases 16 - i,
        {
            registers.push(0);
            i += 1;
        }
        Cpu { registers, z: false, c: false, n: false, v: false }
    }

    /// The fixed pipeline lookahead: the program counter reads as the
    /// address of the instruction being fetched plus this offset.
    pub fn read_pc_offset(&self) -> (r: u32)
        ensures
            r == 8,
    {
        8
    }

    /// Point the core at the instruction at `addr`, storing `addr + 8` into
    /// register 15 per the pipeline-offset invariant.
    pub fn set_next_instruction_addr(&mut self, addr: u32)
        requires
            old(self).wf(),
            addr as int + 8 <= u32::MAX,
        ensures
            final(self).wf(),
            final(self).registers@ == old(self).registers@.update(15, (addr + 8) as u32),
            final(self).flags_eq(*old(self)),
    {
        let off = self.read_pc_offset();
        self.registers[15] = addr + off;
    }

    /// Execute the data-processing word `op`: read the operands, run the
    /// ALU, and store the result in the destination register. The flags are
    /// never changed; a word that asks for a flag update, or names a
    /// comparison opcode, fails as unimplemented with no register change.
    pub fn impl_data_processing(&mut self, op: u32) -> (r: Result<(), CpuFault>)
        requires
            old(self).wf(),
        ensures
            final(self).wf(),
            final(self).flags_eq(*old(self)),
            dp_setcc(op) ==> r == Result::<(), CpuFault>::Err(CpuFault::FlagUpdateUnimplemented(op))
                && *final(self) == *old(self),
            !dp_setcc(op) && 8 <= dp_opcode(op) <= 11 ==> r == Result::<(), CpuFault>::Err(
                CpuFault::ComparisonUnimplemented(dp_opcode(op)),
            ) && *final(self) == *old(self),
            !dp_setcc(op) && !(8 <= dp_opcode(op) <= 11) ==> r is Ok && final(self).registers@
                == old(self).registers@.update(
                dp_rd(op) as int,
                spec_alu(
                    dp_opcode(op),
                    old(self).registers@[dp_rn(op) as int],
                    spec_op2(old(self).registers@, op),
                    old(self).c,
                ),
            ),
    {
        proof {
            assert((op >> 16) & 0xF < 16 && (op >> 12) & 0xF < 16 && (op & 0xF) < 16 && (op >> 8)
                & 0xF < 16 && (op >> 7) & 0x1F < 32 && (op >> 21) & 0xF < 16 && (op >> 5) & 3 < 4
                && (op >> 8) & 0xF < 16 && 2 * ((op >> 8) & 0xF) < 32) by (bit_vector);
        }
        let immediate = ((op >> 25) & 1) == 1;
        let opcode = (op >> 21) & 0xF;
        let setcc = ((op >> 20) & 1) == 1;
        let rn = ((op >> 16) & 0xF) as usize;
        let op1 = self.registers[rn];
        let rd = ((op >> 12) & 0xF) as usize;
        let op2: u32 = if !immediate {
            let rm = (op & 0xF) as usize;
            let rmv = self.registers[rm];
            let shift_type = (op >> 5) & 0x3;
            let shift_amount: u32 = if ((op >> 4) & 1) == 1 {
                let rs = ((op >> 8) & 0xF) as usize;
                self.registers[rs] & 0x1F
            } else {
                (op >> 7) & 0x1F
            };
            proof {
                let a = self.registers@[((op >> 8) & 0xF) as int];
                assert(a & 0x1F < 32) by (bit_vector);
            }
            if shift_type == 0 {
                lsl32(rmv, shift_amount)
            } else if shift_type == 1 {
                lsr32(rmv, shift_amount)
            } else if shift_type == 2 {
                asr32(rmv, shift_amount)
            } else {
                ror32(rmv, shift_amount)
            }
        } else {
            let rotate = (op >> 8) & 0xF;
            let imm = op & 0xFF;
            ror32(imm, 2 * rotate)
        };
        if setcc {
            return Err(CpuFault::FlagUpdateUnimplemented(op));
        }
        let value: u32 = if opcode == 0 {
            op1 & op2
        } else if opcode == 1 {
            op1 ^ op2
        } else if opcode == 2 {
            wrap_sub(op1, op2)
        } else if opcode == 3 {
            wrap_sub(op2, op1)
        } else if opcode == 4 {
            wrap_add(op1, op2)
        } else if opcode == 5 {
            wrap_add_carry(op1, op2, self.c)
        } else if opcode == 6 {
            wrap_sub_carry(op1, op2, self.c)
        } else if opcode == 7 {
            wrap_sub_carry(op2, op1, self.c)
        } else if opcode == 12 {
            op1 | op2
        } else if opcode == 13 {
            op2
        } else if opcode == 14 {
            op1 & !op2
        } else if opcode == 15 {
            !op2
        } else {
            return Err(CpuFault::ComparisonUnimplemented(opcode));
        };
        self.registers[rd] = value;
        Ok(())
    }

    /// Dispatch the software-interrupt word: register 7 selects the call.
    /// Syscall 1 asks for process exit with the code in register 0; syscall
    /// 4 asks for a write of the bytes at (register 1, length register 2) to
    /// the stream in register 0, where any stream other than 1 or 2 is the
    /// sole recoverable error, reported back in register 0. The program
    /// counter is not advanced here.
    fn impl_swi(&mut self, mem: &Memory, op: u32) -> (r: Result<StepOutcome, CpuFault>)
        requires
            old(self).wf(),
            mem.wf(),
        ensures
            final(self).wf(),
            final(self).flags_eq(*old(self)),
            old(self).registers@[7] == 1 ==> (r matches Ok(o2) && o2 == StepOutcome::Exit(
                old(self).registers@[0],
            ) && *final(self) == *old(self)),
            old(self).registers@[7] == 4 && !(old(self).registers@[0] == 1
                || old(self).registers@[0] == 2) ==> (r matches Ok(o2) && o2
                == StepOutcome::Proceed && final(self).registers@ == old(self).registers@.update(
                0,
                9u32,
            )),
            old(self).registers@[7] == 4 && (old(self).registers@[0] == 1
                || old(self).registers@[0] == 2) ==> *final(self) == *old(self) && {
                let buf = old(self).registers@[1];
                let len = old(self).registers@[2];
                if buf as int + len as int > 0x1_0000_0000 {
                    r == Result::<StepOutcome, CpuFault>::Err(CpuFault::WriteRangeFault)
                } else if mem.spec_allowed(
                    buf as int,
                    len as int,
                    (MemoryFlags { read: true, write: false, execute: false }),
                ) {
                    r matches Ok(o2) && o2 matches StepOutcome::Write(fd, bytes) && fd == old(
                        self,
                    ).registers@[0] && bytes@.len() == len && forall|i: int|
                        0 <= i < len ==> bytes@[i] == mem.spec_byte(buf as int + i)
                } else {
                    r matches Err(e) && e matches CpuFault::WriteFault(_)
                }
            },
            !(old(self).registers@[7] == 1 || old(self).registers@[7] == 4) ==> r
                == Result::<StepOutcome, CpuFault>::Err(
                CpuFault::UnimplementedSyscall(old(self).registers@[7]),
            ) && *final(self) == *old(self),
    {
        let sc = self.registers[7];
        if sc == 1 {
            Ok(StepOutcome::Exit(self.registers[0]))
        } else if sc == 4 {
            let fileno = self.registers[0];
            if fileno != 1 && fileno != 2 {
                self.registers[0] = 9;  // EBADF: bad file number
                return Ok(StepOutcome::Proceed);
            }
            let buf = self.registers[1];
            let len = self.registers[2];
            if (buf as u64) + (len as u64) > 0x1_0000_0000u64 {
                return Err(CpuFault::WriteRangeFault);
            }
            let rdonly = MemoryFlags { read: true, write: false, execute: false };
            match mem.read_bytes(buf, rdonly, len as usize) {
                Ok(bytes) => Ok(StepOutcome::Write(fileno, bytes)),
                Err(f) => Err(CpuFault::WriteFault(f)),
            }
        } else {
            Err(CpuFault::UnimplementedSyscall(sc))
        }
    }

    /// One full cycle: fetch the word at `registers[15] - 8` (which needs
    /// read and execute permission), evaluate its condition code against the
    /// flags, dispatch it if the condition holds, and advance register 15 by
    /// 4 exactly once whatever the condition said.
    pub fn step1(&mut self, mem: &Memory) -> (r: Result<StepOutcome, CpuFault>)
        requires
            old(self).wf(),
            mem.wf(),
            old(self).registers@[15] >= 8,
            old(self).registers@[15] + 4 <= u32::MAX,
            (old(self).registers@[15] - 8) % (PAGE_SIZE as int) + 4 <= PAGE_SIZE,
        ensures
            final(self).wf(),
            final(self).flags_eq(*old(self)),
            ({
                let fa = old(self).registers@[15] - 8;
                let rx = (MemoryFlags { read: true, write: false, execute: true });
                if !mem.spec_flags(fa / (PAGE_SIZE as int)).spec_contains(rx) {
                    &&& r matches Err(e)
                    &&& e matches CpuFault::Fetch(f)
                    &&& f.page_base == (fa / (PAGE_SIZE as int)) * (PAGE_SIZE as int)
                    &&& *final(self) == *old(self)
                } else {
                    let op = mem.spec_le(fa, 4) as u32;
                    let regs = old(self).registers@;
                    if !spec_cond_holds(op >> 28, old(self).z, old(self).c, old(self).n, old(
                        self,
                    ).v) {
                        r matches Ok(o2) && o2 == StepOutcome::Proceed && final(self).registers@
                            == regs.update(15, (regs[15] + 4) as u32)
                    } else if is_bx(op) {
                        r == Result::<StepOutcome, CpuFault>::Err(
                            CpuFault::BranchExchangeUnimplemented(op),
                        ) && *final(self) == *old(self)
                    } else if op_class(op) == 0x28 || op_class(op) == 0x3A {
                        if dp_setcc(op) {
                            r == Result::<StepOutcome, CpuFault>::Err(
                                CpuFault::FlagUpdateUnimplemented(op),
                            ) && *final(self) == *old(self)
                        } else if 8 <= dp_opcode(op) <= 11 {
                            r == Result::<StepOutcome, CpuFault>::Err(
                                CpuFault::ComparisonUnimplemented(dp_opcode(op)),
                            ) && *final(self) == *old(self)
                        } else {
                            let regs1 = regs.update(
                                dp_rd(op) as int,
                                spec_alu(
                                    dp_opcode(op),
                                    regs[dp_rn(op) as int],
                                    spec_op2(regs, op),
                                    old(self).c,
                                ),
                            );
                            if regs1[15] as int + 4 <= u32::MAX {
                                r matches Ok(o2) && o2 == StepOutcome::Proceed && final(self).registers@ == regs1.update(15, (regs1[15] + 4) as u32)
                            } else {
                                r == Result::<StepOutcome, CpuFault>::Err(
                                    CpuFault::ProgramCounterOverflow,
                                ) && final(self).registers@ == regs1
                            }
                        }
                    } else if 0xF0 <= op_class(op) {
                        if regs[7] == 1 {
                            r matches Ok(o2) && o2 == StepOutcome::Exit(regs[0]) && final(self).registers@ == regs.update(15, (regs[15] + 4) as u32)
                        } else if regs[7] == 4 {
                            if !(regs[0] == 1 || regs[0] == 2) {
                                r matches Ok(o2) && o2 == StepOutcome::Proceed && final(self).registers@ == regs.update(0, 9u32).update(
                                    15,
                                    (regs[15] + 4) as u32,
                                )
                            } else if regs[1] as int + regs[2] as int > 0x1_0000_0000 {
                                r == Result::<StepOutcome, CpuFault>::Err(
                                    CpuFault::WriteRangeFault,
                                ) && *final(self) == *old(self)
                            } else if mem.spec_allowed(
                                regs[1] as int,
                                regs[2] as int,
                                (MemoryFlags { read: true, write: false, execute: false }),
                            ) {
                                r matches Ok(o2) && o2 matches StepOutcome::Write(fd, bytes) && fd
                                    == regs[0] && bytes@.len() == regs[2] && (forall|i: int|
                                    0 <= i < regs[2] ==> bytes@[i] == mem.spec_byte(
                                        regs[1] as int + i,
                                    )) && final(self).registers@ == regs.update(
                                    15,
                                    (regs[15] + 4) as u32,
                                )
                            } else {
                                r matches Err(e) && e matches CpuFault::WriteFault(_) && *final(self) == *old(self)
                            }
                        } else {
                            r == Result::<StepOutcome, CpuFault>::Err(
                                CpuFault::UnimplementedSyscall(regs[7]),
                            ) && *final(self) == *old(self)
                        }
                    } else {
                        r == Result::<StepOutcome, CpuFault>::Err(
                            CpuFault::UnimplementedInstruction(op),
                        ) && *final(self) == *old(self)
                    }
                }
            }),
    {
        let pc = self.registers[15];
        let off = self.read_pc_offset();
        let fa = pc - off;
        let rx = MemoryFlags { read: true, write: false, execute: true };
        let op = match mem.read_u32_aligned(fa, rx) {
            Err(f) => {
                return Err(CpuFault::Fetch(f));
            },
            Ok(w) => w,
        };
        let cond = condition_passes(op >> 28, self.z, self.c, self.n, self.v);
        if cond {
            if (op >> 4) & 0xFFFFFF == 0x12FFF1 {
                return Err(CpuFault::BranchExchangeUnimplemented(op));
            }
            let class = (op >> 20) & 0xFF;
            if class == 0x28 || class == 0x3A {
                match self.impl_data_processing(op) {
                    Err(e) => {
                        return Err(e);
                    },
                    Ok(()) => {},
                }
            } else if class >= 0xF0 {
                let out = match self.impl_swi(mem, op) {
                    Err(e) => {
                        return Err(e);
                    },
                    Ok(o2) => o2,
                };
                let pc2 = self.registers[15];
                self.registers[15] = pc2 + 4;
                return Ok(out);
            } else {
                return Err(CpuFault::UnimplementedInstruction(op));
            }
        }
        let pc2 = self.registers[15];
        if pc2 > u32::MAX - 4 {
            return Err(CpuFault::ProgramCounterOverflow);
        }
        self.registers[15] = pc2 + 4;
        Ok(StepOutcome::Proceed)
    }
}

} // verus!
