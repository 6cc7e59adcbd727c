use usboot::amlogic::large::large_access_args_fit;
use usboot::amlogic::encoding::pack_u32x4;
use usboot::amlogic::large::{read_large_memory, write_large_memory};
use usboot::amlogic::transfer::Transfer;
use usboot::amlogic::AmlError;

fn bulk_bytes(ts: &[Transfer]) -> Vec<u8> {
    let mut out = Vec::new();
    for t in ts {
        if let Transfer::BulkOut { data } = t {
            out.extend_from_slice(data);
        }
    }
    out
}

#[test]
fn write_large_memory_aligned() {
    let data: Vec<u8> = (1..=8).collect();
    let plan = write_large_memory(0x100, &data, 4, false);
    assert!(plan.outcome.is_ok());
    assert_eq!(
        plan.transfers,
        vec![
            Transfer::ControlOut { request: 0x11, value: 4, index: 2, data: pack_u32x4(0x100, 8, 0, 0) },
            Transfer::BulkOut { data: vec![1, 2, 3, 4] },
            Transfer::BulkOut { data: vec![5, 6, 7, 8] },
        ]
    );
}

#[test]
fn write_large_memory_pads_with_zeros() {
    let data: Vec<u8> = (1..=6).collect();
    let plan = write_large_memory(0x100, &data, 4, true);
    assert!(plan.outcome.is_ok());
    assert_eq!(
        plan.transfers,
        vec![
            Transfer::ControlOut { request: 0x11, value: 4, index: 2, data: pack_u32x4(0x100, 8, 0, 0) },
            Transfer::BulkOut { data: vec![1, 2, 3, 4] },
            Transfer::BulkOut { data: vec![5, 6, 0, 0] },
        ]
    );
}

#[test]
fn write_large_memory_refuses_unaligned() {
    let plan = write_large_memory(0x100, &[1, 2, 3, 4, 5, 6], 4, false);
    assert!(plan.transfers.is_empty());
    assert!(matches!(
        plan.outcome,
        Err(AmlError::BlockAlignment { data_length: 6, block_length: 4 })
    ));
}

#[test]
fn write_large_memory_splits_at_65535_blocks() {
    let data: Vec<u8> = (0..65546u32).map(|i| (i % 251) as u8).collect();
    let plan = write_large_memory(0x1000_0000, &data, 1, false);
    assert!(plan.outcome.is_ok());
    assert_eq!(plan.transfers.len(), 1 + 65535 + 1 + 11);
    assert_eq!(
        plan.transfers[0],
        Transfer::ControlOut { request: 0x11, value: 1, index: 65535, data: pack_u32x4(0x1000_0000, 65535, 0, 0) }
    );
    assert_eq!(
        plan.transfers[65536],
        Transfer::ControlOut { request: 0x11, value: 1, index: 11, data: pack_u32x4(0x1000_0000 + 65535, 11, 0, 0) }
    );
    assert_eq!(bulk_bytes(&plan.transfers), data);
}

#[test]
fn write_large_memory_sends_whole_spans_before_refusing() {
    let data: Vec<u8> = (0..(2 * 65535 + 3) as u32).map(|i| i as u8).collect();
    let plan = write_large_memory(0, &data, 2, false);
    assert_eq!(plan.transfers.len(), 1 + 65535);
    assert_eq!(bulk_bytes(&plan.transfers), data[..2 * 65535].to_vec());
    assert!(matches!(
        plan.outcome,
        Err(AmlError::BlockAlignment { data_length: 3, block_length: 2 })
    ));
}

#[test]
fn write_large_memory_of_nothing_sends_nothing() {
    let plan = write_large_memory(0, &[], 64, false);
    assert!(plan.outcome.is_ok());
    assert!(plan.transfers.is_empty());
}

#[test]
fn read_large_memory_aligned() {
    let plan = read_large_memory(0x200, 8, 4, false);
    assert!(plan.outcome.is_ok());
    assert_eq!(
        plan.transfers,
        vec![
            Transfer::ControlOut { request: 0x12, value: 4, index: 2, data: pack_u32x4(0x200, 8, 0, 0) },
            Transfer::BulkIn { len: 4 },
            Transfer::BulkIn { len: 4 },
        ]
    );
}

#[test]
fn read_large_memory_rounds_up_to_whole_blocks() {
    let plan = read_large_memory(0x200, 5, 4, true);
    assert!(plan.outcome.is_ok());
    assert_eq!(
        plan.transfers,
        vec![
            Transfer::ControlOut { request: 0x12, value: 4, index: 2, data: pack_u32x4(0x200, 8, 0, 0) },
            Transfer::BulkIn { len: 4 },
            Transfer::BulkIn { len: 4 },
        ]
    );
    let plan = read_large_memory(0, 3, 4, true);
    assert_eq!(
        plan.transfers,
        vec![
            Transfer::ControlOut { request: 0x12, value: 4, index: 1, data: pack_u32x4(0, 4, 0, 0) },
            Transfer::BulkIn { len: 4 },
        ]
    );
}

#[test]
fn read_large_memory_padded_asks_rounded_length() {
    let plan = read_large_memory(0, 2 * 65535 * 4 + 7, 4, true);
    assert!(plan.outcome.is_ok());
    let total: usize = plan
        .transfers
        .iter()
        .map(|t| match t {
            Transfer::BulkIn { len } => *len,
            _ => 0,
        })
        .sum();
    assert_eq!(total, 2 * 65535 * 4 + 8);
}

#[test]
fn read_large_memory_refuses_unaligned() {
    let plan = read_large_memory(0x200, 5, 4, false);
    assert!(plan.transfers.is_empty());
    assert!(matches!(
        plan.outcome,
        Err(AmlError::BlockAlignment { data_length: 5, block_length: 4 })
    ));
}

#[test]
fn read_large_memory_asks_for_the_length() {
    let plan = read_large_memory(0, 3 * 65535 * 2 + 40, 2, false);
    assert!(plan.outcome.is_ok());
    let total: usize = plan
        .transfers
        .iter()
        .map(|t| match t {
            Transfer::BulkIn { len } => *len,
            _ => 0,
        })
        .sum();
    assert_eq!(total, 3 * 65535 * 2 + 40);
}

#[test]
fn large_args_fit_checks() {
    assert!(!large_access_args_fit(0, 10, 0));
    assert!(large_access_args_fit(0, 10, 4));
    assert!(!large_access_args_fit(0, 10, usize::MAX));
    assert!(large_access_args_fit(0xffff_fff0, 100, 1));
    assert!(!large_access_args_fit(0xffff_fff0, 65536, 1));
    assert!(large_access_args_fit(0, 5, 4));
    assert!(!large_access_args_fit(0, usize::MAX - 1, 4));
}
