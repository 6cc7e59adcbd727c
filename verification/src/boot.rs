//! The decisions of the boot tools: which board family a board belongs to,
//! where each boot file goes, and how BL2 data requests are answered.
use vstd::prelude::*;
use vstd::string::StringSliceAdditionalSpecFns;

use crate::amlogic::commands::string_push;
use crate::amlogic::socid::SocId;

verus! {

/// Whether `a` and `b` hold the same text.
pub fn str_eq(a: &str, b: &str) -> (r: bool)
    ensures
        r == (a@ == b@),
{
    let x = a.as_bytes();
    let y = b.as_bytes();
    let mut same = x.len() == y.len();
    if same {
        let mut i: usize = 0;
        assert(x@.take(0) =~= y@.take(0));
        while i < x.len()
            invariant
                x@.len() == y@.len(),
                i <= x@.len(),
                same == (x@.take(i as int) == y@.take(i as int)),
            decreases x@.len() - i,
        {
            if x[i] != y[i] {
                proof {
                    if same {
                        assert(x@.take(i + 1)[i as int] == x@[i as int]);
                        assert(y@.take(i + 1)[i as int] == y@[i as int]);
                    }
                }
                same = false;
            } else {
                proof {
                    if same {
                        assert(x@.take(i + 1) =~= x@.take(i as int).push(x@[i as int]));
                        assert(y@.take(i + 1) =~= y@.take(i as int).push(y@[i as int]));
                    }
                }
            }
            proof {
                if !same && x@.take(i + 1) == y@.take(i + 1) {
                    assert forall|j: int| 0 <= j < i implies x@[j] == y@[j] by {
                        assert(x@.take(i + 1)[j] == y@.take(i + 1)[j]);
                    }
                    assert(x@.take(i as int) =~= y@.take(i as int));
                    assert(x@.take(i + 1)[i as int] == y@.take(i + 1)[i as int]);
                }
            }
            i = i + 1;
        }
        assert(x@.take(x@.len() as int) =~= x@);
        assert(y@.take(y@.len() as int) =~= y@);
    }
    proof {
        vstd::utf8::encode_utf8_decode_utf8(a@);
        vstd::utf8::encode_utf8_decode_utf8(b@);
    }
    same
}

/// Families of Amlogic SoCs that boot-gx can boot.
#[derive(Debug, Clone, Copy, PartialEq, Eq, Structural)]
pub enum BoardFamily {
    /// GXBB, GXL and GXM.
    Gx,
    /// AXG.
    Axg,
}

/// Whether `board` names a board of the GX family.
pub open spec fn is_gx_board(board: Seq<char>) -> bool {
    ||| board == "libretech-s905x-cc"@
    ||| board == "libretech-s805x-ac"@
    ||| board == "khadas-vim"@
    ||| board == "khadas-vim2"@
    ||| board == "odroid-c2"@
    ||| board == "nanopi-k2"@
    ||| board == "p212"@
    ||| board == "p230"@
    ||| board == "p231"@
    ||| board == "q200"@
    ||| board == "q201"@
    ||| board == "p281"@
    ||| board == "p241"@
    ||| board == "libretech-s912-pc"@
}

/// Whether `board` names a board of the AXG family.
pub open spec fn is_axg_board(board: Seq<char>) -> bool {
    ||| board == "s400"@
    ||| board == "s420"@
    ||| board == "apollo"@
}

/// The family of `board`, if boot-gx knows it.
pub fn board_family(board: &str) -> (r: Option<BoardFamily>)
    ensures
        is_gx_board(board@) ==> r == Some(BoardFamily::Gx),
        !is_gx_board(board@) && is_axg_board(board@) ==> r == Some(BoardFamily::Axg),
        !is_gx_board(board@) && !is_axg_board(board@) ==> r is None,
{
    if str_eq(board, "libretech-s905x-cc") || str_eq(board, "libretech-s805x-ac") || str_eq(
        board,
        "khadas-vim",
    ) || str_eq(board, "khadas-vim2") || str_eq(board, "odroid-c2") || str_eq(board, "nanopi-k2")
        || str_eq(board, "p212") || str_eq(board, "p230") || str_eq(board, "p231") || str_eq(
        board,
        "q200",
    ) || str_eq(board, "q201") || str_eq(board, "p281") || str_eq(board, "p241") || str_eq(
        board,
        "libretech-s912-pc",
    ) {
        Some(BoardFamily::Gx)
    } else if str_eq(board, "s400") || str_eq(board, "s420") || str_eq(board, "apollo") {
        Some(BoardFamily::Axg)
    } else {
        None
    }
}

/// Where the boot files of a family go.
#[derive(Debug, Clone, Copy, PartialEq, Eq, Structural)]
pub struct BootParams {
    /// Load address of BL2, where DDR initialisation runs.
    pub ddr_load: u32,
    /// Address of the BL2 parameters.
    pub bl2_params: u32,
    /// Load address of U-Boot.
    pub uboot_load: u32,
}

/// The boot parameters of a family.
pub open spec fn family_params(family: BoardFamily) -> BootParams {
    match family {
        BoardFamily::Gx => BootParams { ddr_load: 0xd9000000, bl2_params: 0xd900c000, uboot_load: 0x200c000 },
        BoardFamily::Axg => BootParams { ddr_load: 0xfffc0000, bl2_params: 0xfffcc000, uboot_load: 0x200c000 },
    }
}

/// The text of the refusal of an unknown board.
pub open spec fn unsupported_board_text(board: Seq<char>) -> Seq<char> {
    "Unsupported board: "@ + board
}

impl BootParams {
    /// The boot parameters of a family.
    pub fn for_family(family: BoardFamily) -> (p: BootParams)
        ensures
            p == family_params(family),
    {
        match family {
            BoardFamily::Gx => BootParams { ddr_load: 0xd9000000, bl2_params: 0xd900c000, uboot_load: 0x200c000 },
            BoardFamily::Axg => BootParams { ddr_load: 0xfffc0000, bl2_params: 0xfffcc000, uboot_load: 0x200c000 },
        }
    }

    /// The boot parameters of `board`, or the text that refuses it.
    pub fn for_board(board: &str) -> (r: Result<BootParams, String>)
        ensures
            is_gx_board(board@) ==> r == Ok::<BootParams, String>(family_params(BoardFamily::Gx)),
            !is_gx_board(board@) && is_axg_board(board@) ==> r == Ok::<BootParams, String>(
                family_params(BoardFamily::Axg),
            ),
            !is_gx_board(board@) && !is_axg_board(board@) ==> (r matches Err(s) && s@
                == unsupported_board_text(board@)),
    {
        match board_family(board) {
            Some(family) => Ok(BootParams::for_family(family)),
            None => {
                let mut text = String::from_str("Unsupported board: ");
                text.append(board);
                Err(text)
            },
        }
    }
}

proof fn lemma_s400_not_gx()
    ensures
        !is_gx_board("s400"@),
        is_axg_board("s400"@),
{
    reveal_strlit("s400");
    reveal_strlit("libretech-s905x-cc");
    assert("s400"@.len() != "libretech-s905x-cc"@.len());
    reveal_strlit("libretech-s805x-ac");
    assert("s400"@.len() != "libretech-s805x-ac"@.len());
    reveal_strlit("khadas-vim");
    assert("s400"@.len() != "khadas-vim"@.len());
    reveal_strlit("khadas-vim2");
    assert("s400"@.len() != "khadas-vim2"@.len());
    reveal_strlit("odroid-c2");
    assert("s400"@.len() != "odroid-c2"@.len());
    reveal_strlit("nanopi-k2");
    assert("s400"@.len() != "nanopi-k2"@.len());
    reveal_strlit("p212");
    assert("s400"@[0] != "p212"@[0]);
    reveal_strlit("p230");
    assert("s400"@[0] != "p230"@[0]);
    reveal_strlit("p231");
    assert("s400"@[0] != "p231"@[0]);
    reveal_strlit("q200");
    assert("s400"@[0] != "q200"@[0]);
    reveal_strlit("q201");
    assert("s400"@[0] != "q201"@[0]);
    reveal_strlit("p281");
    assert("s400"@[0] != "p281"@[0]);
    reveal_strlit("p241");
    assert("s400"@[0] != "p241"@[0]);
    reveal_strlit("libretech-s912-pc");
    assert("s400"@.len() != "libretech-s912-pc"@.len());
}

proof fn lemma_s420_not_gx()
    ensures
        !is_gx_board("s420"@),
        is_axg_board("s420"@),
{
    reveal_strlit("s420");
    reveal_strlit("libretech-s905x-cc");
    assert("s420"@.len() != "libretech-s905x-cc"@.len());
    reveal_strlit("libretech-s805x-ac");
    assert("s420"@.len() != "libretech-s805x-ac"@.len());
    reveal_strlit("khadas-vim");
    assert("s420"@.len() != "khadas-vim"@.len());
    reveal_strlit("khadas-vim2");
    assert("s420"@.len() != "khadas-vim2"@.len());
    reveal_strlit("odroid-c2");
    assert("s420"@.len() != "odroid-c2"@.len());
    reveal_strlit("nanopi-k2");
    assert("s420"@.len() != "nanopi-k2"@.len());
    reveal_strlit("p212");
    assert("s420"@[0] != "p212"@[0]);
    reveal_strlit("p230");
    assert("s420"@[0] != "p230"@[0]);
    reveal_strlit("p231");
    assert("s420"@[0] != "p231"@[0]);
    reveal_strlit("q200");
    assert("s420"@[0] != "q200"@[0]);
    reveal_strlit("q201");
    assert("s420"@[0] != "q201"@[0]);
    reveal_strlit("p281");
    assert("s420"@[0] != "p281"@[0]);
    reveal_strlit("p241");
    assert("s420"@[0] != "p241"@[0]);
    reveal_strlit("libretech-s912-pc");
    assert("s420"@.len() != "libretech-s912-pc"@.len());
}

proof fn lemma_apollo_not_gx()
    ensures
        !is_gx_board("apollo"@),
        is_axg_board("apollo"@),
{
    reveal_strlit("apollo");
    reveal_strlit("libretech-s905x-cc");
    assert("apollo"@.len() != "libretech-s905x-cc"@.len());
    reveal_strlit("libretech-s805x-ac");
    assert("apollo"@.len() != "libretech-s805x-ac"@.len());
    reveal_strlit("khadas-vim");
    assert("apollo"@.len() != "khadas-vim"@.len());
    reveal_strlit("khadas-vim2");
    assert("apollo"@.len() != "khadas-vim2"@.len());
    reveal_strlit("odroid-c2");
    assert("apollo"@.len() != "odroid-c2"@.len());
    reveal_strlit("nanopi-k2");
    assert("apollo"@.len() != "nanopi-k2"@.len());
    reveal_strlit("p212");
    assert("apollo"@.len() != "p212"@.len());
    reveal_strlit("p230");
    assert("apollo"@.len() != "p230"@.len());
    reveal_strlit("p231");
    assert("apollo"@.len() != "p231"@.len());
    reveal_strlit("q200");
    assert("apollo"@.len() != "q200"@.len());
    reveal_strlit("q201");
    assert("apollo"@.len() != "q201"@.len());
    reveal_strlit("p281");
    assert("apollo"@.len() != "p281"@.len());
    reveal_strlit("p241");
    assert("apollo"@.len() != "p241"@.len());
    reveal_strlit("libretech-s912-pc");
    assert("apollo"@.len() != "libretech-s912-pc"@.len());
}

/// The board table of boot-gx: each of its GX boards belongs to the GX
/// family and each of its AXG boards to the AXG family alone; no name is in
/// both families; GX boards load BL2 at 0xd9000000 with its parameters at
/// 0xd900c000, AXG boards at 0xfffc0000 and 0xfffcc000, and both load U-Boot
/// at 0x200c000.
pub proof fn lemma_board_table()
    ensures
        is_gx_board("libretech-s905x-cc"@),
        is_gx_board("libretech-s805x-ac"@),
        is_gx_board("khadas-vim"@),
        is_gx_board("khadas-vim2"@),
        is_gx_board("odroid-c2"@),
        is_gx_board("nanopi-k2"@),
        is_gx_board("p212"@),
        is_gx_board("p230"@),
        is_gx_board("p231"@),
        is_gx_board("q200"@),
        is_gx_board("q201"@),
        is_gx_board("p281"@),
        is_gx_board("p241"@),
        is_gx_board("libretech-s912-pc"@),
        !is_gx_board("s400"@) && is_axg_board("s400"@),
        !is_gx_board("s420"@) && is_axg_board("s420"@),
        !is_gx_board("apollo"@) && is_axg_board("apollo"@),
        forall|b: Seq<char>| !(#[trigger] is_gx_board(b) && is_axg_board(b)),
        family_params(BoardFamily::Gx) == (BootParams {
            ddr_load: 0xd9000000,
            bl2_params: 0xd900c000,
            uboot_load: 0x200c000,
        }),
        family_params(BoardFamily::Axg) == (BootParams {
            ddr_load: 0xfffc0000,
            bl2_params: 0xfffcc000,
            uboot_load: 0x200c000,
        }),
{
    lemma_s400_not_gx();
    lemma_s420_not_gx();
    lemma_apollo_not_gx();
    assert forall|b: Seq<char>| !(#[trigger] is_gx_board(b) && is_axg_board(b)) by {
        if is_axg_board(b) {
            assert(b == "s400"@ || b == "s420"@ || b == "apollo"@);
        }
    }
}

/// The character of hexadecimal digit `d`, in lower case.
pub open spec fn hex_digit(d: nat) -> char {
    if d < 10 {
        (0x30 + d) as char
    } else {
        (0x57 + d) as char
    }
}

/// The eight lower-case hexadecimal digits of `x`, most significant first.
pub open spec fn hex8(x: u32) -> Seq<char> {
    seq![
        hex_digit(((x / 0x1000_0000) % 16) as nat),
        hex_digit(((x / 0x100_0000) % 16) as nat),
        hex_digit(((x / 0x10_0000) % 16) as nat),
        hex_digit(((x / 0x1_0000) % 16) as nat),
        hex_digit(((x / 0x1000) % 16) as nat),
        hex_digit(((x / 0x100) % 16) as nat),
        hex_digit(((x / 0x10) % 16) as nat),
        hex_digit((x % 16) as nat),
    ]
}

/// How boot parameters read, each address as eight hexadecimal digits.
pub open spec fn params_text(p: BootParams) -> Seq<char> {
    "BootParams { ddr_load: 0x"@ + hex8(p.ddr_load) + ", bl2_params: 0x"@ + hex8(p.bl2_params)
        + ", uboot_load: 0x"@ + hex8(p.uboot_load) + " }"@
}

/// The line that names the family of the board and its boot parameters.
pub open spec fn banner_text(family: BoardFamily, p: BootParams) -> Seq<char> {
    let head = match family {
        BoardFamily::Gx => "Using GX Family "@,
        BoardFamily::Axg => "Using AXG Family "@,
    };
    head + params_text(p)
}

/// The character of hexadecimal digit `d`.
fn hex_char(d: u32) -> (c: char)
    requires
        d < 16,
    ensures
        c == hex_digit(d as nat),
{
    if d < 10 {
        ((0x30 + d) as u8) as char
    } else {
        ((0x57 + d) as u8) as char
    }
}

/// Appends the eight hexadecimal digits of `x` to `s`.
fn push_hex8(s: &mut String, x: u32)
    ensures
        final(s)@ == old(s)@ + hex8(x),
{
    string_push(s, hex_char((x / 0x1000_0000) % 16));
    string_push(s, hex_char((x / 0x100_0000) % 16));
    string_push(s, hex_char((x / 0x10_0000) % 16));
    string_push(s, hex_char((x / 0x1_0000) % 16));
    string_push(s, hex_char((x / 0x1000) % 16));
    string_push(s, hex_char((x / 0x100) % 16));
    string_push(s, hex_char((x / 0x10) % 16));
    string_push(s, hex_char(x % 16));
    assert(final(s)@ =~= old(s)@ + hex8(x));
}

impl BootParams {
    /// The parameters as text, for instance
    /// `BootParams { ddr_load: 0xd9000000, bl2_params: 0xd900c000, uboot_load: 0x0200c000 }`.
    pub fn to_string(&self) -> (s: String)
        ensures
            s@ == params_text(*self),
    {
        let mut s = String::from_str("BootParams { ddr_load: 0x");
        push_hex8(&mut s, self.ddr_load);
        s.append(", bl2_params: 0x");
        push_hex8(&mut s, self.bl2_params);
        s.append(", uboot_load: 0x");
        push_hex8(&mut s, self.uboot_load);
        s.append(" }");
        s
    }
}

/// The line that boot-gx prints once it knows the board: its family and
/// boot parameters.
pub fn boot_banner(family: BoardFamily, params: &BootParams) -> (s: String)
    ensures
        s@ == banner_text(family, *params),
{
    let mut s = match family {
        BoardFamily::Gx => String::from_str("Using GX Family "),
        BoardFamily::Axg => String::from_str("Using AXG Family "),
    };
    let text = params.to_string();
    s.append(text.as_str());
    s
}

/// The files that boot-gx loads.
#[derive(Debug, Clone, Copy, PartialEq, Eq, Structural)]
pub enum BootFile {
    /// `u-boot.bin.usb.bl2`.
    Bl2,
    /// `usbbl2runpara_ddrinit.bin`.
    DdrInit,
    /// `usbbl2runpara_runfipimg.bin`.
    FipRun,
    /// `u-boot.bin.usb.tpl`.
    Tpl,
    /// A kernel image.
    Image,
    /// A device tree binary.
    Fdt,
    /// A U-Boot script.
    Script,
    /// A RAM file system.
    Ramfs,
}

/// One file write of a boot: which file, where, and how: large transfers
/// of `block_size` blocks, zero-filled when `fill` is set, or simple memory
/// writes when there is no block size.
#[derive(Debug, Clone, Copy, PartialEq, Eq, Structural)]
pub struct LoadStep {
    pub file: BootFile,
    pub address: u32,
    pub block_size: Option<usize>,
    pub fill: bool,
}

/// Time to wait after running the DDR initialisation, in milliseconds.
pub const INIT_DDR_WAIT_MS: u64 = 1000;

/// The writes that initialise DDR: BL2 by simple writes at its load
/// address, then the DDR parameters in blocks of 32 bytes; BL2 then runs at
/// `ddr_load`.
pub fn ddr_init_steps(params: &BootParams) -> (steps: Vec<LoadStep>)
    ensures
        steps@ == seq![
            LoadStep { file: BootFile::Bl2, address: params.ddr_load, block_size: None, fill: false },
            LoadStep { file: BootFile::DdrInit, address: params.bl2_params, block_size: Some(32usize), fill: false },
        ],
{
    let mut steps = Vec::new();
    steps.push(LoadStep { file: BootFile::Bl2, address: params.ddr_load, block_size: None, fill: false });
    steps.push(
        LoadStep { file: BootFile::DdrInit, address: params.bl2_params, block_size: Some(32), fill: false },
    );
    assert(steps@ =~= seq![
        LoadStep { file: BootFile::Bl2, address: params.ddr_load, block_size: None, fill: false },
        LoadStep { file: BootFile::DdrInit, address: params.bl2_params, block_size: Some(32usize), fill: false },
    ]);
    steps
}

/// The writes that load U-Boot once DDR runs: BL2 in blocks of 64 bytes,
/// the FIP parameters in blocks of 48, and the TPL zero-filled in blocks of 64.
pub fn uboot_steps(params: &BootParams) -> (steps: Vec<LoadStep>)
    ensures
        steps@ == seq![
            LoadStep { file: BootFile::Bl2, address: params.ddr_load, block_size: Some(64usize), fill: false },
            LoadStep { file: BootFile::FipRun, address: params.bl2_params, block_size: Some(48usize), fill: false },
            LoadStep { file: BootFile::Tpl, address: params.uboot_load, block_size: Some(64usize), fill: true },
        ],
{
    let mut steps = Vec::new();
    steps.push(LoadStep { file: BootFile::Bl2, address: params.ddr_load, block_size: Some(64), fill: false });
    steps.push(
        LoadStep { file: BootFile::FipRun, address: params.bl2_params, block_size: Some(48), fill: false },
    );
    steps.push(LoadStep { file: BootFile::Tpl, address: params.uboot_load, block_size: Some(64), fill: true });
    assert(steps@ =~= seq![
        LoadStep { file: BootFile::Bl2, address: params.ddr_load, block_size: Some(64usize), fill: false },
        LoadStep { file: BootFile::FipRun, address: params.bl2_params, block_size: Some(48usize), fill: false },
        LoadStep { file: BootFile::Tpl, address: params.uboot_load, block_size: Some(64usize), fill: true },
    ]);
    steps
}

/// Where an optional file goes: the image and the RAM file system
/// zero-filled in blocks of 512 bytes, the device tree and the script by
/// simple writes.
pub open spec fn extra_step(file: BootFile) -> Option<LoadStep> {
    match file {
        BootFile::Image => Some(LoadStep { file, address: 0x8080000, block_size: Some(512usize), fill: true }),
        BootFile::Fdt => Some(LoadStep { file, address: 0x8008000, block_size: None, fill: false }),
        BootFile::Script => Some(LoadStep { file, address: 0x8000000, block_size: None, fill: false }),
        BootFile::Ramfs => Some(LoadStep { file, address: 0x13000000, block_size: Some(512usize), fill: true }),
        _ => None,
    }
}

/// Where an optional file goes; `None` for the files every boot loads.
pub fn extra_file_step(file: BootFile) -> (step: Option<LoadStep>)
    ensures
        step == extra_step(file),
{
    match file {
        BootFile::Image => Some(LoadStep { file, address: 0x8080000, block_size: Some(512), fill: true }),
        BootFile::Fdt => Some(LoadStep { file, address: 0x8008000, block_size: None, fill: false }),
        BootFile::Script => Some(LoadStep { file, address: 0x8000000, block_size: None, fill: false }),
        BootFile::Ramfs => Some(LoadStep { file, address: 0x13000000, block_size: Some(512), fill: true }),
        _ => None,
    }
}

/// Where U-Boot is run: at the BL2 parameters when the SoC reports the SPL
/// stage, else at the BL2 load address.
pub fn uboot_run_address(params: &BootParams, socid: &SocId) -> (address: u32)
    requires
        socid@.len() > 3,
    ensures
        address == if socid@[3] == 8 {
            params.bl2_params
        } else {
            params.ddr_load
        },
{
    if socid.stage_minor() == 8 {
        params.bl2_params
    } else {
        params.ddr_load
    }
}

/// Load address of the first BL2 chunk on G12 SoCs.
pub const G12_LOAD_ADDRESS: u32 = 0xfffa_0000;
/// The first BL2 chunk holds at most this many bytes of the binary.
pub const G12_FIRST_CHUNK_MAX: usize = 0x10000;
/// Block length of the first BL2 chunk.
pub const G12_BLOCK_LENGTH: usize = 4096;

/// Length of the first chunk of a G12 binary of `data_len` bytes.
pub fn g12_first_chunk_len(data_len: usize) -> (n: usize)
    ensures
        n == if data_len < G12_FIRST_CHUNK_MAX {
            data_len
        } else {
            G12_FIRST_CHUNK_MAX
        },
{
    if data_len < G12_FIRST_CHUNK_MAX {
        data_len
    } else {
        G12_FIRST_CHUNK_MAX
    }
}

/// One answer to a BL2 data request: bytes `start..end` of the binary,
/// written with AMLS sequence number `seq` at AMLC offset `start`.
#[derive(Debug, Clone, Copy, PartialEq, Eq, Structural)]
pub struct Bl2Chunk {
    pub seq: u8,
    pub start: usize,
    pub end: usize,
}

/// The state of the BL2 loading loop of G12 SoCs: the last request
/// answered and the next sequence number.
#[derive(Debug, Clone, Copy, PartialEq, Eq, Structural)]
pub struct Bl2Loader {
    pub prev_length: u32,
    pub prev_offset: u32,
    pub seq: u8,
}

impl Bl2Loader {
    /// A loader that has answered nothing yet.
    pub fn new() -> (l: Bl2Loader)
        ensures
            l == (Bl2Loader { prev_length: u32::MAX, prev_offset: u32::MAX, seq: 0 }),
    {
        Bl2Loader { prev_length: u32::MAX, prev_offset: u32::MAX, seq: 0 }
    }

    /// Answers the request of `length` bytes at `offset` of a binary of
    /// `data_len` bytes: `None` when the SoC repeats the last request, which
    /// ends BL2 loading; else the bytes to write, cut at the end of the
    /// binary, with the next sequence number.
    pub fn next(&mut self, length: u32, offset: u32, data_len: usize) -> (r: Option<Bl2Chunk>)
        requires
            offset + length <= usize::MAX,
        ensures
            length == old(self).prev_length && offset == old(self).prev_offset ==> r is None
                && *final(self) == *old(self),
            !(length == old(self).prev_length && offset == old(self).prev_offset) ==> r == Some(
                Bl2Chunk {
                    seq: old(self).seq,
                    start: offset as usize,
                    end: if offset + length < data_len {
                        (offset + length) as usize
                    } else {
                        data_len
                    },
                },
            ) && *final(self) == (Bl2Loader {
                prev_length: length,
                prev_offset: offset,
                seq: vstd::wrapping::u8_specs::wrapping_add(old(self).seq, 1),
            }),
    {
        if length == self.prev_length && offset == self.prev_offset {
            return None;
        }
        self.prev_length = length;
        self.prev_offset = offset;
        let start = offset as usize;
        let sum = offset as usize + length as usize;
        let end = if sum < data_len {
            sum
        } else {
            data_len
        };
        let chunk = Bl2Chunk { seq: self.seq, start, end };
        self.seq = self.seq.wrapping_add(1);
        Some(chunk)
    }
}

} // verus!
