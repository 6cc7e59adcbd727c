use usboot::amlogic::device::{find_device, poll_device, PollAction};
use usboot::amlogic::transfer::{bulk_in_buffer_len, bulk_in_received, join_responses, low_u16, low_u32};
use usboot::amlogic::AmlError;

#[test]
fn find_device_takes_the_first_match() {
    let devices = [(1, 2), (0x1b8e, 0xc003), (0x1b8e, 0xc003)];
    assert_eq!(find_device(&devices, 0x1b8e, 0xc003), Some(1));
    assert_eq!(find_device(&devices, 0x1b8e, 0xc004), None);
    assert_eq!(find_device(&[], 1, 2), None);
}

#[test]
fn poll_device_decisions() {
    assert!(matches!(poll_device(true, 0, 99, 1, 2), Ok(PollAction::Open)));
    assert!(matches!(poll_device(false, 5, 1, 1, 2), Ok(PollAction::Wait)));
    assert!(matches!(
        poll_device(false, 5, 5, 0x1b8e, 0xc003),
        Err(AmlError::DeviceNotFound { vendor: 0x1b8e, product: 0xc003 })
    ));
    assert!(matches!(poll_device(false, 0, 0, 1, 2), Err(AmlError::DeviceNotFound { vendor: 1, product: 2 })));
}

#[test]
fn bulk_in_buffer_is_whole_packets() {
    assert_eq!(bulk_in_buffer_len(0, 512), 512);
    assert_eq!(bulk_in_buffer_len(1, 512), 512);
    assert_eq!(bulk_in_buffer_len(512, 512), 512);
    assert_eq!(bulk_in_buffer_len(513, 512), 1024);
    assert_eq!(bulk_in_buffer_len(16, 64), 64);
}

#[test]
fn bulk_in_received_truncates() {
    assert_eq!(bulk_in_received(vec![1, 2, 3, 4, 5], 3), vec![1, 2, 3]);
    assert_eq!(bulk_in_received(vec![1, 2], 3), vec![1, 2]);
}

#[test]
fn join_responses_in_order() {
    assert_eq!(join_responses(&vec![vec![1, 2], vec![], vec![3]]), vec![1, 2, 3]);
    assert_eq!(join_responses(&vec![]), Vec::<u8>::new());
}

#[test]
fn low_bits() {
    assert_eq!(low_u16(0x1_0005), 5);
    assert_eq!(low_u32(0x1234), 0x1234);
}
