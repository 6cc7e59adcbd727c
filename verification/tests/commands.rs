use usboot::amlogic::commands::{
    bulk_cmd, bulk_cmd_stat, copy_reg, copy_reg_mask_and, dev_read, identify, identify_string,
    mask_reg_and, mask_reg_nand, mask_reg_or, memcpy, modify_memory, nop, read_media, read_reg,
    reg_value, run, send_password, tpl_command, tpl_stat, write_media, write_reg, write_reg_bits,
};
use usboot::amlogic::encoding::pack_u32x4;
use usboot::amlogic::transfer::Transfer;
use usboot::amlogic::AmlError;

fn modify(opcode: u16, a1: u32, d: u32, m: u32, a2: u32) -> Transfer {
    Transfer::ControlOut { request: 0x04, value: opcode, index: 0, data: pack_u32x4(a1, d, m, a2) }
}

#[test]
fn register_operations_use_their_opcodes() {
    assert_eq!(modify_memory(9, 1, 2, 3, 4), modify(9, 1, 2, 3, 4));
    assert_eq!(write_reg(0x10, 0xab), modify(0, 0x10, 0xab, 0, 0));
    assert_eq!(mask_reg_and(0x10, 0xf0), modify(1, 0x10, 0, 0xf0, 0));
    assert_eq!(mask_reg_or(0x10, 0xf0), modify(2, 0x10, 0, 0xf0, 0));
    assert_eq!(mask_reg_nand(0x10, 0xf0), modify(3, 0x10, 0, 0xf0, 0));
    assert_eq!(write_reg_bits(0x10, 0xf0, 0x30), modify(4, 0x10, 0x30, 0xf0, 0));
    assert_eq!(copy_reg(0x20, 0x30), modify(5, 0x30, 0, 0, 0x20));
    assert_eq!(copy_reg_mask_and(0x20, 0x30, 0xff), modify(6, 0x30, 0, 0xff, 0x20));
    assert_eq!(memcpy(1, 2, 3), modify(7, 2, 3, 0, 1));
}

#[test]
fn read_reg_reads_four_bytes() {
    assert_eq!(
        read_reg(0xc883_0000),
        Transfer::ControlIn { request: 0x02, value: 0xc883, index: 0, length: 4 }
    );
    assert_eq!(reg_value(&[0x78, 0x56, 0x34, 0x12, 0xff]), 0x1234_5678);
}

#[test]
fn run_sets_keep_power_flag() {
    assert_eq!(
        run(0x0100_0000, true),
        Transfer::ControlOut { request: 0x05, value: 0x0100, index: 0, data: vec![0x10, 0, 0, 1] }
    );
    assert_eq!(
        run(0xd900_0000, false),
        Transfer::ControlOut { request: 0x05, value: 0xd900, index: 0, data: vec![0, 0, 0, 0xd9] }
    );
    assert_eq!(
        run(0xfffa_0010, true),
        Transfer::ControlOut { request: 0x05, value: 0xfffa, index: 0x10, data: vec![0x10, 0, 0xfa, 0xff] }
    );
}

#[test]
fn identify_asks_for_eight_bytes() {
    assert_eq!(identify(), Transfer::ControlIn { request: 0x20, value: 0, index: 0, length: 8 });
    assert_eq!(identify_string(&[0x30, 0x41]), "0A");
}

#[test]
fn tpl_command_is_terminated() {
    let t = tpl_command(3, "echo").unwrap();
    assert_eq!(
        t,
        Transfer::ControlOut { request: 0x30, value: 0, index: 3, data: b"echo\0".to_vec() }
    );
    let t = tpl_command(0, "\u{e9}").unwrap();
    assert_eq!(t, Transfer::ControlOut { request: 0x30, value: 0, index: 0, data: vec![0xc3, 0xa9, 0] });
}

#[test]
fn tpl_command_refuses_128_bytes() {
    let ok = "a".repeat(126);
    assert!(tpl_command(0, &ok).is_ok());
    let long = "a".repeat(127);
    assert!(matches!(tpl_command(0, &long), Err(AmlError::TplCommandTooLong(128))));
}

#[test]
fn bulk_cmd_with_and_without_status() {
    let ts = bulk_cmd("reset", true).unwrap();
    assert_eq!(
        ts,
        vec![
            Transfer::ControlOut { request: 0x34, value: 0, index: 2, data: b"reset\0".to_vec() },
            Transfer::BulkIn { len: 512 },
        ]
    );
    let ts = bulk_cmd("reset", false).unwrap();
    assert_eq!(ts.len(), 1);
    let long = "b".repeat(200);
    assert!(matches!(bulk_cmd(&long, true), Err(AmlError::BulkCommandTooLong(201))));
    assert_eq!(bulk_cmd_stat(), Transfer::BulkIn { len: 512 });
}

#[test]
fn small_requests() {
    assert_eq!(tpl_stat(), Transfer::ControlIn { request: 0x31, value: 0, index: 0, length: 0x40 });
    assert_eq!(
        send_password(&[1, 2]),
        Transfer::ControlOut { request: 0x35, value: 0, index: 0, data: vec![1, 2] }
    );
    assert_eq!(nop(), Transfer::ControlOut { request: 0x36, value: 0, index: 0, data: vec![] });
    assert_eq!(dev_read(77), Transfer::BulkIn { len: 77 });
}

#[test]
fn read_media_announces_blocks() {
    let ts = read_media(0x1001);
    assert_eq!(
        ts,
        vec![
            Transfer::ControlOut { request: 0x33, value: 0x1001, index: 2, data: pack_u32x4(0, 0x1001, 0, 0) },
            Transfer::BulkIn { len: 0x1001 },
        ]
    );
    let ts = read_media(0);
    assert_eq!(ts[0], Transfer::ControlOut { request: 0x33, value: 0, index: 0, data: pack_u32x4(0, 0, 0, 0) });
}

#[test]
fn write_media_header_carries_checksum() {
    let ts = write_media(&[1, 2, 3, 4], 0x10, 7, 3);
    let mut header = vec![3, 0, 0, 0, 4, 0, 0, 0, 7, 0, 0, 0, 1, 2, 3, 4, 0xef, 0, 0x10, 0];
    header.resize(32, 0);
    assert_eq!(
        ts,
        vec![
            Transfer::ControlOut { request: 0x32, value: 1, index: 0xffff, data: header },
            Transfer::BulkOut { data: vec![1, 2, 3, 4] },
        ]
    );
}
