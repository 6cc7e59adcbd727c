use usboot::amlogic::amlc::{
    amlc_okay, amlc_step, amls_block_bytes, check_amlc_ack, get_boot_amlc, parse_amlc_request, write_amlc_data,
    write_amlc_data_inner, AmlcWrite,
};
use usboot::amlogic::checksum::amls_checksum;
use usboot::amlogic::transfer::Transfer;
use usboot::amlogic::AmlError;

#[test]
fn get_boot_amlc_reads_a_request() {
    assert_eq!(
        get_boot_amlc(),
        vec![
            Transfer::ControlOut { request: 0x50, value: 0x200, index: 0, data: vec![] },
            Transfer::BulkIn { len: 512 },
        ]
    );
    let mut okay = b"OKAY".to_vec();
    okay.resize(16, 0);
    assert_eq!(amlc_okay(), Transfer::BulkOut { data: okay });
}

#[test]
fn parse_amlc_request_reads_length_and_offset() {
    let mut req = b"AMLC".to_vec();
    req.extend_from_slice(&[9, 9, 9, 9]);
    req.extend_from_slice(&0x1000u32.to_le_bytes());
    req.extend_from_slice(&0x200u32.to_le_bytes());
    req.resize(512, 0xee);
    assert_eq!(parse_amlc_request(req).unwrap(), (0x1000, 0x200));
}

#[test]
fn parse_amlc_request_refuses_short_and_untagged() {
    let short = b"AMLC123456".to_vec();
    match parse_amlc_request(short.clone()) {
        Err(AmlError::InvalidAmlcRequest(bytes)) => assert_eq!(bytes, short),
        _ => panic!("a short request is refused"),
    }
    let mut other = b"XMLC".to_vec();
    other.resize(40, 1);
    match parse_amlc_request(other.clone()) {
        Err(AmlError::InvalidAmlcRequest(bytes)) => assert_eq!(bytes, other[..16].to_vec()),
        _ => panic!("a request with another tag is refused"),
    }
}

#[test]
fn check_amlc_ack_wants_okay() {
    assert!(check_amlc_ack(b"OKAY".to_vec()).is_ok());
    assert!(check_amlc_ack(b"OKAYmore".to_vec()).is_ok());
    assert!(matches!(check_amlc_ack(b"OKA".to_vec()), Err(AmlError::InvalidAmlcAck(b)) if b == b"OKA".to_vec()));
    assert!(matches!(check_amlc_ack(b"FAIL".to_vec()), Err(AmlError::InvalidAmlcAck(_))));
}

#[test]
fn amls_block_layout() {
    let data: Vec<u8> = (1..=20).collect();
    let block = amls_block_bytes(3, &data);
    assert_eq!(block.len(), 512);
    assert_eq!(&block[0..8], &[b'A', b'M', b'L', b'S', 3, 0, 0, 0]);
    assert_eq!(&block[8..12], &0x3c37_322du32.to_le_bytes());
    assert_eq!(&block[12..16], &[0, 0, 0, 0]);
    assert_eq!(&block[16..20], &[17, 18, 19, 20]);
    assert!(block[20..].iter().all(|&b| b == 0));
}

#[test]
fn amls_block_of_long_data_copies_496_bytes() {
    let data: Vec<u8> = (0..1000u32).map(|i| (i % 200 + 1) as u8).collect();
    let block = amls_block_bytes(0, &data);
    assert_eq!(block.len(), 512);
    assert_eq!(&block[16..512], &data[16..512]);
    assert_eq!(&block[8..12], &amls_checksum(&data).to_le_bytes());
}

#[test]
fn write_amlc_data_splits_at_64k() {
    let data: Vec<u8> = (0..70000u32).map(|i| i as u8).collect();
    let ws = write_amlc_data(1, 0x2000, &data);
    assert_eq!(ws.len(), 3);
    assert_eq!(ws[0], AmlcWrite { offset: 0, data: data[..65536].to_vec() });
    assert_eq!(ws[1], AmlcWrite { offset: 65536, data: data[65536..].to_vec() });
    assert_eq!(ws[2], AmlcWrite { offset: 0x2000, data: amls_block_bytes(1, &data) });
}

#[test]
fn write_amlc_data_of_nothing_sends_amls_only() {
    let ws = write_amlc_data(5, 0, &[]);
    assert_eq!(ws.len(), 1);
    assert_eq!(ws[0].data.len(), 512);
}

#[test]
fn write_amlc_data_inner_blocks_of_16k() {
    let data: Vec<u8> = (0..20000u32).map(|i| i as u8).collect();
    let ts = write_amlc_data_inner(0x400, &data);
    assert_eq!(
        ts,
        vec![
            Transfer::ControlOut { request: 0x60, value: 2, index: 19999, data: vec![] },
            Transfer::BulkOut { data: data[..16384].to_vec() },
            Transfer::BulkOut { data: data[16384..].to_vec() },
            Transfer::BulkIn { len: 16 },
        ]
    );
}

#[test]
fn amlc_step_stops_at_first_bad_ack() {
    let data: Vec<u8> = (0..70000u32).map(|i| i as u8).collect();
    let ws = write_amlc_data(0, 0, &data);
    assert_eq!(ws.len(), 3);
    assert!(matches!(amlc_step(&ws, 0, b"OKAY".to_vec()), Ok(Some(1))));
    assert!(matches!(amlc_step(&ws, 1, b"OKAYxx".to_vec()), Ok(Some(2))));
    assert!(matches!(amlc_step(&ws, 2, b"OKAY".to_vec()), Ok(None)));
    match amlc_step(&ws, 0, b"BUSY".to_vec()) {
        Err(AmlError::InvalidAmlcAck(bytes)) => assert_eq!(bytes, b"BUSY".to_vec()),
        _ => panic!("a bad acknowledgement ends the answer"),
    }
    assert!(matches!(amlc_step(&ws, 2, vec![]), Err(AmlError::InvalidAmlcAck(b)) if b.is_empty()));
}
