use usboot::amlogic::memory::{read_memory_args_fit, write_memory_args_fit};
use usboot::amlogic::memory::{read_memory, read_simple_memory, write_memory, write_simple_memory};
use usboot::amlogic::transfer::Transfer;
use usboot::amlogic::AmlError;

#[test]
fn write_simple_memory_splits_address() {
    let t = write_simple_memory(0x1234_5678, &[1, 2, 3]).unwrap();
    assert_eq!(
        t,
        Transfer::ControlOut { request: 0x01, value: 0x1234, index: 0x5678, data: vec![1, 2, 3] }
    );
}

#[test]
fn write_simple_memory_refuses_more_than_64_bytes() {
    assert!(write_simple_memory(0, &[0u8; 64]).is_ok());
    let r = write_simple_memory(0, &[0u8; 65]);
    assert!(matches!(r, Err(AmlError::DataTooLarge(65))));
}

#[test]
fn write_memory_chunks_of_64() {
    let data: Vec<u8> = (0..100).map(|i| i as u8).collect();
    let ts = write_memory(0x0001_fff0, &data);
    assert_eq!(ts.len(), 2);
    assert_eq!(
        ts[0],
        Transfer::ControlOut { request: 0x01, value: 0x0001, index: 0xfff0, data: data[..64].to_vec() }
    );
    assert_eq!(
        ts[1],
        Transfer::ControlOut { request: 0x01, value: 0x0002, index: 0x0030, data: data[64..].to_vec() }
    );
}

#[test]
fn write_memory_sends_exactly_the_data() {
    let data: Vec<u8> = (0..300).map(|i| (i * 7) as u8).collect();
    let ts = write_memory(0x1000, &data);
    let mut sent = Vec::new();
    for t in &ts {
        match t {
            Transfer::ControlOut { data, .. } => {
                assert!(data.len() <= 64);
                sent.extend_from_slice(data);
            }
            _ => panic!("write_memory only writes"),
        }
    }
    assert_eq!(sent, data);
}

#[test]
fn write_memory_of_nothing_sends_one_empty_write() {
    let ts = write_memory(0x40, &[]);
    assert_eq!(ts, vec![Transfer::ControlOut { request: 0x01, value: 0, index: 0x40, data: vec![] }]);
}

#[test]
fn read_simple_memory_cases() {
    assert!(matches!(read_simple_memory(0, 0), Ok(None)));
    assert!(matches!(read_simple_memory(0, 65), Err(AmlError::DataTooLarge(65))));
    let t = read_simple_memory(0xc110_0000, 4).unwrap().unwrap();
    assert_eq!(t, Transfer::ControlIn { request: 0x02, value: 0xc110, index: 0, length: 4 });
}

#[test]
fn read_memory_chunks_of_64() {
    let ts = read_memory(0x2000, 130);
    assert_eq!(
        ts,
        vec![
            Transfer::ControlIn { request: 0x02, value: 0, index: 0x2000, length: 64 },
            Transfer::ControlIn { request: 0x02, value: 0, index: 0x2040, length: 64 },
            Transfer::ControlIn { request: 0x02, value: 0, index: 0x2080, length: 2 },
        ]
    );
    assert!(read_memory(0x2000, 0).is_empty());
}

#[test]
fn read_memory_asks_for_the_length() {
    let ts = read_memory(0x10, 1000);
    let total: usize = ts
        .iter()
        .map(|t| match t {
            Transfer::ControlIn { length, .. } => *length as usize,
            _ => 0,
        })
        .sum();
    assert_eq!(total, 1000);
}

#[test]
fn memory_args_fit_checks() {
    assert!(write_memory_args_fit(0xffff_ffc0, 64));
    assert!(!write_memory_args_fit(0xffff_ffc0, 65));
    assert!(write_memory_args_fit(0xffff_ffff, 0));
    assert!(read_memory_args_fit(0xffff_ffc0, 64));
    assert!(!read_memory_args_fit(0xffff_ffc0, 65));
    assert!(read_memory_args_fit(0, 0));
}
