use uvm::cpu::{condition_passes, Cpu, CpuFault, StepOutcome};
use uvm::mem::{Memory, MemoryFlags};

fn rx() -> MemoryFlags {
    MemoryFlags { read: true, write: false, execute: true }
}

fn load_code(m: &mut Memory, addr: u32, words: &[u32]) {
    let mut bytes: Vec<u8> = Vec::new();
    for w in words {
        bytes.extend_from_slice(&w.to_le_bytes());
    }
    let n = bytes.len() as u32;
    m.init_copy(addr, rx(), &bytes, 0, n).unwrap();
}

fn cpu_at(addr: u32) -> Cpu {
    let mut cpu = Cpu::new();
    cpu.set_next_instruction_addr(addr);
    cpu
}

#[test]
fn condition_table_exhaustive() {
    // every 4-bit code against every flag combination, checked against the
    // standard ARM condition table written out independently here
    for code in 0u32..16u32 {
        for bits in 0u32..16u32 {
            let z = bits & 1 != 0;
            let c = bits & 2 != 0;
            let n = bits & 4 != 0;
            let v = bits & 8 != 0;
            let expected = match code {
                0 => z,
                1 => !z,
                2 => c,
                3 => !c,
                4 => n,
                5 => !n,
                6 => v,
                7 => !v,
                8 => c && !z,
                9 => !c || z,
                10 => n == v,
                11 => n != v,
                12 => !z && (n == v),
                13 => z || (n != v),
                14 => true,
                _ => false, // reserved space: never execute (current behavior)
            };
            assert_eq!(
                condition_passes(code, z, c, n, v),
                expected,
                "code {} flags z={} c={} n={} v={}",
                code,
                z,
                c,
                n,
                v
            );
        }
    }
}

#[test]
fn condition_gates_execution_in_step() {
    let mut m = Memory::new();
    // EQ-conditioned MOV r0, #1 -- executes only when the zero flag is set
    load_code(&mut m, 0, &[0x03A0_0001]);
    let mut cpu = cpu_at(0);
    cpu.z = false;
    assert!(matches!(cpu.step1(&m), Ok(StepOutcome::Proceed)));
    assert_eq!(cpu.registers[0], 0, "condition failed: no effect");
    assert_eq!(cpu.registers[15], 12, "pc advances regardless");
    let mut cpu2 = cpu_at(0);
    cpu2.z = true;
    assert!(matches!(cpu2.step1(&m), Ok(StepOutcome::Proceed)));
    assert_eq!(cpu2.registers[0], 1);
    assert_eq!(cpu2.registers[15], 12);
}

#[test]
fn reserved_condition_never_executes() {
    // the all-ones condition code is the reserved/unconditional space; the
    // current behavior (possibly provisional) is to skip the instruction
    let mut m = Memory::new();
    load_code(&mut m, 0, &[0xF3A0_0001]);
    let mut cpu = cpu_at(0);
    assert!(matches!(cpu.step1(&m), Ok(StepOutcome::Proceed)));
    assert_eq!(cpu.registers[0], 0);
    assert_eq!(cpu.registers[15], 12, "pc still advances by four");
}

#[test]
fn add_immediate_wraps_around() {
    let mut m = Memory::new();
    // ADD r0, r1, #1 with r1 = 0xFFFFFFFF wraps to 0 without fault
    load_code(&mut m, 0, &[0xE281_0001]);
    let mut cpu = cpu_at(0);
    cpu.registers[1] = 0xFFFF_FFFF;
    assert!(matches!(cpu.step1(&m), Ok(StepOutcome::Proceed)));
    assert_eq!(cpu.registers[0], 0);
}

#[test]
fn add_register_wraps_around() {
    // ADD r0, r1, r2 through the data-processing unit: register second
    // operand, r1 = 0xFFFFFFFF, r2 = 1, wraparound result 0
    let mut cpu = Cpu::new();
    cpu.registers[1] = 0xFFFF_FFFF;
    cpu.registers[2] = 1;
    assert_eq!(cpu.impl_data_processing(0xE081_0002), Ok(()));
    assert_eq!(cpu.registers[0], 0);
}

#[test]
fn mov_rotated_immediate() {
    let mut m = Memory::new();
    // MOV r0, #0xCC with rotate field 2 (rotate right by 4)
    load_code(&mut m, 0, &[0xE3A0_02CC]);
    let mut cpu = cpu_at(0);
    assert!(matches!(cpu.step1(&m), Ok(StepOutcome::Proceed)));
    assert_eq!(cpu.registers[0], 0xC000_000C);
}

#[test]
fn shift_by_register_uses_low_five_bits() {
    // MOV r0, r1 LSL r2: the shift amount is the low 5 bits of r2's low byte
    let mut cpu = Cpu::new();
    cpu.registers[1] = 1;
    cpu.registers[2] = 0x0000_0121; // low byte 0x21, low five bits = 1
    assert_eq!(cpu.impl_data_processing(0xE1A0_0211), Ok(()));
    assert_eq!(cpu.registers[0], 2);
    cpu.registers[2] = 0x0000_0041; // low five bits of 0x41 = 1 as well
    assert_eq!(cpu.impl_data_processing(0xE1A0_0211), Ok(()));
    assert_eq!(cpu.registers[0], 2);
}

#[test]
fn alu_basic_operations() {
    let mut cpu = Cpu::new();
    cpu.registers[1] = 0xF0F0_1234;
    cpu.registers[2] = 0x0FF0_4321;
    // AND r0, r1, r2
    assert_eq!(cpu.impl_data_processing(0xE001_0002), Ok(()));
    assert_eq!(cpu.registers[0], 0xF0F0_1234 & 0x0FF0_4321);
    // EOR r0, r1, r2
    assert_eq!(cpu.impl_data_processing(0xE021_0002), Ok(()));
    assert_eq!(cpu.registers[0], 0xF0F0_1234 ^ 0x0FF0_4321);
    // SUB r0, r1, r2
    assert_eq!(cpu.impl_data_processing(0xE041_0002), Ok(()));
    assert_eq!(cpu.registers[0], 0xF0F0_1234u32.wrapping_sub(0x0FF0_4321));
    // RSB r0, r1, r2
    assert_eq!(cpu.impl_data_processing(0xE061_0002), Ok(()));
    assert_eq!(cpu.registers[0], 0x0FF0_4321u32.wrapping_sub(0xF0F0_1234));
    // ORR r0, r1, r2
    assert_eq!(cpu.impl_data_processing(0xE181_0002), Ok(()));
    assert_eq!(cpu.registers[0], 0xF0F0_1234 | 0x0FF0_4321);
    // BIC r0, r1, r2
    assert_eq!(cpu.impl_data_processing(0xE1C1_0002), Ok(()));
    assert_eq!(cpu.registers[0], 0xF0F0_1234 & !0x0FF0_4321);
    // MVN r0, r2
    assert_eq!(cpu.impl_data_processing(0xE1E1_0002), Ok(()));
    assert_eq!(cpu.registers[0], !0x0FF0_4321);
}

#[test]
fn adc_sbc_use_carry() {
    let mut cpu = Cpu::new();
    cpu.registers[1] = 10;
    cpu.registers[2] = 3;
    cpu.c = true;
    // ADC r0, r1, r2 = 10 + 3 + 1
    assert_eq!(cpu.impl_data_processing(0xE0A1_0002), Ok(()));
    assert_eq!(cpu.registers[0], 14);
    // SBC r0, r1, r2 = 10 - 3 + 1 - 1
    assert_eq!(cpu.impl_data_processing(0xE0C1_0002), Ok(()));
    assert_eq!(cpu.registers[0], 7);
    cpu.c = false;
    // SBC without carry = 10 - 3 - 1
    assert_eq!(cpu.impl_data_processing(0xE0C1_0002), Ok(()));
    assert_eq!(cpu.registers[0], 6);
}

#[test]
fn setcc_and_comparisons_unimplemented() {
    let mut cpu = Cpu::new();
    // ADDS (setcc bit) is refused
    assert_eq!(
        cpu.impl_data_processing(0xE091_0002),
        Err(CpuFault::FlagUpdateUnimplemented(0xE091_0002))
    );
    // CMP (opcode 10, discarded result) is refused
    assert_eq!(
        cpu.impl_data_processing(0xE141_0002),
        Err(CpuFault::ComparisonUnimplemented(10))
    );
}

#[test]
fn fetch_requires_read_and_execute() {
    let mut m = Memory::new();
    // code page mapped read-only: fetch must fault
    let bytes: Vec<u8> = 0xE3A0_0001u32.to_le_bytes().to_vec();
    let ro = MemoryFlags { read: true, write: false, execute: false };
    m.init_copy(0, ro, &bytes, 0, 4).unwrap();
    let mut cpu = cpu_at(0);
    assert!(matches!(cpu.step1(&m), Err(CpuFault::Fetch(_))));
}

#[test]
fn unimplemented_opcode_class_faults() {
    let mut m = Memory::new();
    // class 0x00 (register AND form) has no dispatch entry
    load_code(&mut m, 0, &[0xE001_0002]);
    let mut cpu = cpu_at(0);
    assert!(matches!(
        cpu.step1(&m),
        Err(CpuFault::UnimplementedInstruction(0xE001_0002))
    ));
}

#[test]
fn exit_syscall_reports_code() {
    let mut m = Memory::new();
    // MOV r7,#1; MOV r0,#42; SWI 0
    load_code(&mut m, 0, &[0xE3A0_7001, 0xE3A0_002A, 0xEF00_0000]);
    let mut cpu = cpu_at(0);
    assert!(matches!(cpu.step1(&m), Ok(StepOutcome::Proceed)));
    assert!(matches!(cpu.step1(&m), Ok(StepOutcome::Proceed)));
    match cpu.step1(&m) {
        Ok(StepOutcome::Exit(code)) => assert_eq!(code, 42),
        other => panic!("expected exit outcome, got {:?}", other.is_ok()),
    }
}

#[test]
fn write_syscall_bad_fd_is_recoverable() {
    let mut m = Memory::new();
    // MOV r7,#4; MOV r0,#7 (no such stream); SWI 0
    load_code(&mut m, 0, &[0xE3A0_7004, 0xE3A0_0007, 0xEF00_0000]);
    let mut cpu = cpu_at(0);
    assert!(matches!(cpu.step1(&m), Ok(StepOutcome::Proceed)));
    assert!(matches!(cpu.step1(&m), Ok(StepOutcome::Proceed)));
    assert!(matches!(cpu.step1(&m), Ok(StepOutcome::Proceed)));
    assert_eq!(cpu.registers[0], 9, "r0 reports the bad-file error code");
    assert_eq!(cpu.registers[15], 20, "execution continues");
}

#[test]
fn unknown_syscall_faults() {
    let mut m = Memory::new();
    // MOV r7,#9; SWI 0
    load_code(&mut m, 0, &[0xE3A0_7009, 0xEF00_0000]);
    let mut cpu = cpu_at(0);
    assert!(matches!(cpu.step1(&m), Ok(StepOutcome::Proceed)));
    assert!(matches!(cpu.step1(&m), Err(CpuFault::UnimplementedSyscall(9))));
}

#[test]
fn branch_exchange_unimplemented() {
    let mut m = Memory::new();
    // BX r0 bit pattern is recognized and refused
    load_code(&mut m, 0, &[0xE12F_FF10]);
    let mut cpu = cpu_at(0);
    assert!(matches!(
        cpu.step1(&m),
        Err(CpuFault::BranchExchangeUnimplemented(0xE12F_FF10))
    ));
}
