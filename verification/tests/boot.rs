use usboot::amlogic::SocId;
use usboot::boot::{
    board_family, boot_banner, ddr_init_steps, extra_file_step, g12_first_chunk_len, str_eq, uboot_run_address,
    uboot_steps, Bl2Chunk, Bl2Loader, BoardFamily, BootFile, BootParams, LoadStep,
};

#[test]
fn board_families() {
    assert_eq!(board_family("p212"), Some(BoardFamily::Gx));
    assert_eq!(board_family("libretech-s912-pc"), Some(BoardFamily::Gx));
    assert_eq!(board_family("apollo"), Some(BoardFamily::Axg));
    assert_eq!(board_family("s420"), Some(BoardFamily::Axg));
    assert_eq!(board_family("p21"), None);
    assert_eq!(board_family(""), None);
}

#[test]
fn boot_params_for_board() {
    assert_eq!(
        BootParams::for_board("khadas-vim"),
        Ok(BootParams { ddr_load: 0xd900_0000, bl2_params: 0xd900_c000, uboot_load: 0x200_c000 })
    );
    assert_eq!(
        BootParams::for_board("s400"),
        Ok(BootParams { ddr_load: 0xfffc_0000, bl2_params: 0xfffc_c000, uboot_load: 0x200_c000 })
    );
    assert_eq!(BootParams::for_board("rpi4"), Err("Unsupported board: rpi4".to_string()));
}

#[test]
fn str_eq_compares_text() {
    assert!(str_eq("abc", "abc"));
    assert!(!str_eq("abc", "abd"));
    assert!(!str_eq("abc", "ab"));
    assert!(str_eq("\u{e9}", "\u{e9}"));
}

#[test]
fn gx_load_steps() {
    let p = BootParams { ddr_load: 1, bl2_params: 2, uboot_load: 3 };
    assert_eq!(
        ddr_init_steps(&p),
        vec![
            LoadStep { file: BootFile::Bl2, address: 1, block_size: None, fill: false },
            LoadStep { file: BootFile::DdrInit, address: 2, block_size: Some(32), fill: false },
        ]
    );
    assert_eq!(
        uboot_steps(&p),
        vec![
            LoadStep { file: BootFile::Bl2, address: 1, block_size: Some(64), fill: false },
            LoadStep { file: BootFile::FipRun, address: 2, block_size: Some(48), fill: false },
            LoadStep { file: BootFile::Tpl, address: 3, block_size: Some(64), fill: true },
        ]
    );
    assert_eq!(
        extra_file_step(BootFile::Image),
        Some(LoadStep { file: BootFile::Image, address: 0x808_0000, block_size: Some(512), fill: true })
    );
    assert_eq!(
        extra_file_step(BootFile::Fdt),
        Some(LoadStep { file: BootFile::Fdt, address: 0x800_8000, block_size: None, fill: false })
    );
    assert_eq!(
        extra_file_step(BootFile::Script),
        Some(LoadStep { file: BootFile::Script, address: 0x800_0000, block_size: None, fill: false })
    );
    assert_eq!(
        extra_file_step(BootFile::Ramfs),
        Some(LoadStep { file: BootFile::Ramfs, address: 0x1300_0000, block_size: Some(512), fill: true })
    );
    assert_eq!(extra_file_step(BootFile::Tpl), None);
}

#[test]
fn uboot_runs_at_bl2_params_in_spl() {
    let p = BootParams { ddr_load: 1, bl2_params: 2, uboot_load: 3 };
    assert_eq!(uboot_run_address(&p, &SocId::from_bytes(&[0, 0, 0, 8])), 2);
    assert_eq!(uboot_run_address(&p, &SocId::from_bytes(&[0, 0, 0, 0])), 1);
}

#[test]
fn g12_first_chunk() {
    assert_eq!(g12_first_chunk_len(100), 100);
    assert_eq!(g12_first_chunk_len(0x20000), 0x10000);
}

#[test]
fn bl2_loader_ends_on_repeated_request() {
    let mut l = Bl2Loader::new();
    assert_eq!(l.next(0x1000, 0, 0x8000), Some(Bl2Chunk { seq: 0, start: 0, end: 0x1000 }));
    assert_eq!(l.next(0x1000, 0x1000, 0x1800), Some(Bl2Chunk { seq: 1, start: 0x1000, end: 0x1800 }));
    assert_eq!(l.next(0x1000, 0x1000, 0x1800), None);
    assert_eq!(l, Bl2Loader { prev_length: 0x1000, prev_offset: 0x1000, seq: 2 });
}

#[test]
fn bl2_loader_sequence_wraps() {
    let mut l = Bl2Loader { prev_length: 0, prev_offset: 0, seq: 255 };
    assert_eq!(l.next(1, 1, 10), Some(Bl2Chunk { seq: 255, start: 1, end: 2 }));
    assert_eq!(l.seq, 0);
}

#[test]
fn boot_banner_text() {

    let p = BootParams::for_board("odroid-c2").unwrap();
    assert_eq!(
        boot_banner(BoardFamily::Gx, &p),
        "Using GX Family BootParams { ddr_load: 0xd9000000, bl2_params: 0xd900c000, uboot_load: 0x0200c000 }"
    );
    let p = BootParams::for_board("s400").unwrap();
    assert_eq!(
        boot_banner(BoardFamily::Axg, &p),
        "Using AXG Family BootParams { ddr_load: 0xfffc0000, bl2_params: 0xfffcc000, uboot_load: 0x0200c000 }"
    );
    assert_eq!(
        BootParams { ddr_load: 0, bl2_params: 0xabcdef01, uboot_load: 0x10 }.to_string(),
        "BootParams { ddr_load: 0x00000000, bl2_params: 0xabcdef01, uboot_load: 0x00000010 }"
    );
}
