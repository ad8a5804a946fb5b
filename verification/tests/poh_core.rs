use agave_runtime::poh_core::{
    control_bit_set, control_reg_from_bytes, start_command, ControlRegBit, PohCoreBaseAddrs,
    PohCoreReg, ShellWrite,
};

#[test]
fn control_bits_are_read_little_endian() {
    let reg = control_reg_from_bytes([0x06, 0, 0, 0]);
    assert_eq!(reg, 6);
    assert!(control_bit_set(reg, ControlRegBit::Idle));
    assert!(control_bit_set(reg, ControlRegBit::Done));
    assert!(!control_bit_set(reg, ControlRegBit::Start));
    assert!(!control_bit_set(control_reg_from_bytes([0, 4, 0, 0]), ControlRegBit::Idle));
    assert_eq!(control_reg_from_bytes([0x78, 0x56, 0x34, 0x12]), 0x1234_5678);
}

#[test]
fn register_offsets_and_masks() {
    assert_eq!(PohCoreReg::Control.offset(), 0);
    assert_eq!(PohCoreReg::NumItersLow.offset(), 0x1c);
    assert_eq!(PohCoreReg::OutHashesHigh.offset(), 0x34);
    assert_eq!(ControlRegBit::Start.mask(), 1);
    assert_eq!(ControlRegBit::Done.mask(), 2);
    assert_eq!(ControlRegBit::Idle.mask(), 4);
    assert_eq!(start_command(), vec![1, 0, 0, 0]);
}

#[test]
fn init_writes_program_the_core() {
    let addrs = PohCoreBaseAddrs {
        shell_base: 0x6_1000,
        hashes_base: 0x1_2000_0000,
        num_iters_base: 0x3000_0000,
    };
    let writes = addrs.init_writes(0x0102_0304);
    let expected = vec![
        ShellWrite { offset: 0x10, bytes: vec![0, 0, 0, 0x20] },
        ShellWrite { offset: 0x14, bytes: vec![1, 0, 0, 0] },
        ShellWrite { offset: 0x1c, bytes: vec![0, 0, 0, 0x30] },
        ShellWrite { offset: 0x20, bytes: vec![0, 0, 0, 0] },
        ShellWrite { offset: 0x28, bytes: vec![4, 3, 2, 1] },
        ShellWrite { offset: 0x30, bytes: vec![0, 0, 0, 0x20] },
        ShellWrite { offset: 0x34, bytes: vec![1, 0, 0, 0] },
    ];
    assert_eq!(writes, expected);
    assert_eq!(addrs.shell_addr(0x28), 0x6_1028);
}
