//! The CPU on plain RAM.

use riscbox::cpu::{Cpu, Privilege, RunState};
use riscbox::memory::{AccessWidth, GuestAddress, PhysicalMemory, RamFlags};

const BASE: u64 = 0x8000_0000;

fn loaded(program: &[u32]) -> (Cpu, PhysicalMemory) {
    let mut memory = PhysicalMemory::new();
    memory
        .register_ram(GuestAddress(BASE), 0x1_0000, RamFlags::default())
        .unwrap();
    for (index, word) in program.iter().enumerate() {
        memory
            .write(
                GuestAddress(BASE + 4 * index as u64),
                AccessWidth::Word,
                u64::from(*word),
            )
            .unwrap();
    }
    let mut cpu = Cpu::new(0);
    cpu.set_pc(BASE);
    (cpu, memory)
}

fn run(program: &[u32]) -> (Cpu, PhysicalMemory) {
    let (mut cpu, mut memory) = loaded(program);
    for _ in program {
        cpu.step(&mut memory);
    }
    (cpu, memory)
}

fn i(op: u32, f3: u32, rd: u32, rs1: u32, imm: i32) -> u32 {
    ((imm as u32) << 20) | (rs1 << 15) | (f3 << 12) | (rd << 7) | op
}

fn r(op: u32, f7: u32, f3: u32, rd: u32, rs1: u32, rs2: u32) -> u32 {
    (f7 << 25) | (rs2 << 20) | (rs1 << 15) | (f3 << 12) | (rd << 7) | op
}

fn s(f3: u32, rs1: u32, rs2: u32, imm: u32) -> u32 {
    ((imm >> 5) << 25) | (rs2 << 20) | (rs1 << 15) | (f3 << 12) | ((imm & 31) << 7) | 0x23
}

#[test]
fn a_cpu_starts_in_machine_mode() {
    let cpu = Cpu::new(3);
    assert_eq!(cpu.pc(), 0x1000);
    assert_eq!(cpu.privilege(), Privilege::Machine);
    assert_eq!(cpu.csr_read(0xf14, false), Ok(3));
}

#[test]
fn arithmetic_follows_the_instruction_set() {
    let (cpu, _) = run(&[
        i(0x13, 0, 1, 0, 40),
        i(0x13, 0, 2, 0, -3),
        r(0x33, 0, 0, 3, 1, 2),
        r(0x33, 0x20, 0, 4, 1, 2),
        r(0x33, 1, 0, 5, 1, 2),
        r(0x33, 1, 4, 6, 2, 1),
        r(0x33, 1, 5, 7, 1, 0),
        r(0x33, 0, 3, 8, 1, 2),
        r(0x3b, 0, 0, 9, 2, 2),
        i(0x13, 0, 0, 0, 7),
    ]);
    assert_eq!(cpu.register(3), 37);
    assert_eq!(cpu.register(4), 43);
    assert_eq!(cpu.register(5), (-120_i64) as u64);
    assert_eq!(cpu.register(6), 0);
    assert_eq!(cpu.register(7), u64::MAX);
    assert_eq!(cpu.register(8), 1);
    assert_eq!(cpu.register(9), (-6_i64) as u64);
    assert_eq!(cpu.register(0), 0);
    assert_eq!(cpu.pc(), BASE + 40);
    assert_eq!(cpu.retired_instructions(), 10);
}

#[test]
fn stored_values_are_loaded() {
    let (cpu, mut memory) = run(&[
        0x17 | (1 << 7),
        i(0x13, 0, 2, 0, -2),
        s(3, 1, 2, 0x100),
        i(0x03, 3, 3, 1, 0x100),
        i(0x03, 4, 4, 1, 0x100),
        i(0x03, 0, 5, 1, 0x100),
        i(0x03, 6, 6, 1, 0x100),
    ]);
    assert_eq!(cpu.register(1), BASE);
    assert_eq!(cpu.register(3), (-2_i64) as u64);
    assert_eq!(cpu.register(4), 0xfe);
    assert_eq!(cpu.register(5), (-2_i64) as u64);
    assert_eq!(cpu.register(6), 0xffff_fffe);
    assert_eq!(
        memory.read(GuestAddress(BASE + 0x100), AccessWidth::DoubleWord),
        Ok((-2_i64) as u64)
    );
}

#[test]
fn compressed_instructions_are_two_bytes_long() {
    let (mut cpu, mut memory) = loaded(&[0x0505_4515]);
    cpu.step(&mut memory);
    assert_eq!((cpu.pc(), cpu.register(10)), (BASE + 2, 5));
    cpu.step(&mut memory);
    assert_eq!((cpu.pc(), cpu.register(10)), (BASE + 4, 6));
}

#[test]
fn a_machine_trap_returns() {
    let (mut cpu, mut memory) = loaded(&[0x0000_0073]);
    cpu.csr_write(0x305, BASE + 0x200).unwrap();
    memory
        .write(GuestAddress(BASE + 0x200), AccessWidth::Word, 0x3020_0073)
        .unwrap();
    cpu.step(&mut memory);
    assert_eq!(cpu.pc(), BASE + 0x200);
    assert_eq!(cpu.csr_read(0x342, false), Ok(11));
    assert_eq!(cpu.csr_read(0x341, false), Ok(BASE));
    cpu.step(&mut memory);
    assert_eq!(cpu.pc(), BASE);
    assert_eq!(cpu.privilege(), Privilege::Machine);
}

#[test]
fn a_supervisor_trap_returns() {
    let (mut cpu, mut memory) = loaded(&[0x0000_0073]);
    memory
        .write(GuestAddress(BASE + 0x200), AccessWidth::Word, 0x1020_0073)
        .unwrap();
    cpu.csr_write(0x3b0, u64::MAX >> 10).unwrap();
    cpu.csr_write(0x3a0, 0x1f).unwrap();
    cpu.csr_write(0x302, 0x100).unwrap();
    cpu.csr_write(0x105, BASE + 0x200).unwrap();
    cpu.set_privilege(Privilege::User);
    cpu.step(&mut memory);
    assert_eq!((cpu.pc(), cpu.privilege()), (BASE + 0x200, Privilege::Supervisor));
    assert_eq!(cpu.csr_read(0x142, false), Ok(8));
    cpu.step(&mut memory);
    assert_eq!((cpu.pc(), cpu.privilege()), (BASE, Privilege::User));
}

#[test]
fn faults_name_their_cause() {
    for (word, cause) in [
        (0, 2),
        (0x0010_0073, 3),
        (i(0x03, 3, 1, 0, 0), 5),
        (s(3, 0, 0, 0), 7),
    ] {
        let (mut cpu, mut memory) = loaded(&[word]);
        cpu.step(&mut memory);
        assert_eq!(cpu.csr_read(0x342, false), Ok(cause), "{word:x}");
    }
    let (mut cpu, mut memory) = loaded(&[]);
    cpu.set_pc(0x4000);
    cpu.step(&mut memory);
    assert_eq!(cpu.csr_read(0x342, false), Ok(1));
}

#[test]
fn waiting_ends_with_an_interrupt() {
    let (mut cpu, mut memory) = loaded(&[0x1050_0073, i(0x13, 0, 1, 0, 1)]);
    let outcome = cpu.run(&mut memory, 100);
    assert_eq!(outcome.state, RunState::Waiting);
    assert_eq!(cpu.run(&mut memory, 100).cycles, 0);
    cpu.csr_write(0x304, 0x80).unwrap();
    cpu.set_interrupts(0x80);
    assert_eq!(cpu.run(&mut memory, 1).state, RunState::Running);
    assert_eq!(cpu.register(1), 1);
    cpu.csr_write(0x305, BASE + 0x100).unwrap();
    memory
        .write(GuestAddress(BASE + 0x100), AccessWidth::Word, 0x6f)
        .unwrap();
    cpu.csr_write(0x300, 8).unwrap();
    assert_eq!(cpu.pending_interrupt(), Some(7));
    cpu.step(&mut memory);
    assert_eq!(cpu.csr_read(0x342, false), Ok(0x8000_0000_0000_0007));
}

#[test]
fn a_store_breaks_a_reservation() {
    let lr = r(0x2f, 2 << 2, 3, 5, 1, 0);
    let sc = r(0x2f, 3 << 2, 3, 6, 1, 2);
    let (cpu, _) = run(&[0x17 | (1 << 7), i(0x13, 0, 1, 1, 0x400), lr, sc]);
    assert_eq!(cpu.register(6), 0);
    let (cpu, _) = run(&[0x17 | (1 << 7), i(0x13, 0, 1, 1, 0x400), lr, sc, sc]);
    assert_eq!(cpu.register(6), 1);
}

#[test]
fn a_locked_pmp_entry_is_fixed() {
    let mut cpu = Cpu::new(0);
    cpu.csr_write(0x3b0, 0x2000_0fff).unwrap();
    cpu.csr_write(0x3a0, 0x9b).unwrap();
    cpu.csr_write(0x3b0, 0x1234).unwrap();
    cpu.csr_write(0x3a0, 0).unwrap();
    assert_eq!(cpu.csr_read(0x3a0, false).unwrap() & 0xff, 0x9b);
    assert_ne!(cpu.csr_read(0x3b0, false), Ok(0x1234));
}

#[test]
fn pages_are_translated() {
    let (mut cpu, mut memory) = loaded(&[]);
    let table = BASE + 0x1000;
    let entry = (BASE >> 30 << 28) | 0xcf;
    memory
        .write(GuestAddress(table + 8), AccessWidth::DoubleWord, entry)
        .unwrap();
    memory
        .write(GuestAddress(BASE + 0x20), AccessWidth::Word, u64::from(i(0x13, 0, 1, 0, 9)))
        .unwrap();
    cpu.csr_write(0x3b0, u64::MAX >> 10).unwrap();
    cpu.csr_write(0x3a0, 0x1f).unwrap();
    cpu.csr_write(0x180, (8 << 60) | (table >> 12)).unwrap();
    cpu.set_privilege(Privilege::Supervisor);
    cpu.set_pc(0x4000_0020);
    cpu.step(&mut memory);
    assert_eq!(cpu.register(1), 9);
    assert_eq!(cpu.pc(), 0x4000_0024);
    cpu.set_pc(0x20);
    cpu.step(&mut memory);
    assert_eq!(cpu.csr_read(0x342, false), Ok(12));
}

#[test]
fn floating_point_needs_to_be_enabled() {
    let add = r(0x53, 1, 0, 3, 1, 2);
    let (mut cpu, mut memory) = loaded(&[add]);
    cpu.step(&mut memory);
    assert_eq!(cpu.csr_read(0x342, false), Ok(2));
    let (mut cpu, mut memory) = loaded(&[add]);
    cpu.csr_write(0x300, 0x2000).unwrap();
    cpu.set_fp_register_bits(1, 1.5_f64.to_bits());
    cpu.set_fp_register_bits(2, 2.25_f64.to_bits());
    cpu.step(&mut memory);
    assert_eq!(cpu.fp_register_bits(3), 3.75_f64.to_bits());
}
