use usboot::amlogic::commands::identify_string;
use usboot::amlogic::SocId;

#[test]
fn socid_display_tpl() {
    let id = SocId::from_bytes(&[0, 11, 0, 16, 0, 0]);
    assert_eq!(id.to_string(), "0-11-0-16-0-0 (TPL)");
}

#[test]
fn socid_display_ipl_spl_unknown() {
    assert_eq!(SocId::from_bytes(&[0, 9, 0, 0]).to_string(), "0-9-0-0 (IPL)");
    assert_eq!(SocId::from_bytes(&[0, 9, 0, 8, 1]).to_string(), "0-9-0-8-1 (SPL)");
    assert_eq!(SocId::from_bytes(&[255, 100, 1, 8, 42, 7]).to_string(), "255-100-1-8-42-7 (UNKNOWN)");
}

#[test]
fn socid_fields() {
    let id = SocId::from_bytes(&[0, 11, 0, 8, 1, 0, 0, 0]);
    assert_eq!(id.major(), 0);
    assert_eq!(id.minor(), 11);
    assert_eq!(id.stage_major(), 0);
    assert_eq!(id.stage_minor(), 8);
    assert!(id.need_password());
    assert!(!id.password_ok());
    assert_eq!(id.len(), 8);
}

#[test]
fn socid_from_identify_reply() {
    let text = identify_string(&[0, 11, 0, 16, 0, 1, 0, 0]);
    let id = SocId::new(&text);
    assert_eq!(id.len(), 8);
    assert_eq!(id.stage_minor(), 16);
    assert!(!id.need_password());
    assert!(id.password_ok());
    assert_eq!(id.to_string(), "0-11-0-16-0-1-0-0 (TPL)");
}

#[test]
fn socid_new_takes_utf8_bytes() {
    let text = identify_string(&[0x41, 0xc8]);
    assert_eq!(text, "A\u{c8}");
    let id = SocId::new(&text);
    assert_eq!(id.len(), 3);
    assert_eq!(id.minor(), 0xc3);
    assert_eq!(id.stage_major(), 0x88);
}
