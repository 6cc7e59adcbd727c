use vstd::prelude::*;
use vstd::string::StringSliceAdditionalSpecFns;

use super::checksum::{amls_checksum, lemma_checksum_tail, spec_amls_checksum};
use super::encoding::{
    le_bytes_u16, le_bytes_u32, le_value, lemma_le_bytes_u16_roundtrip, lemma_le_bytes_u32_roundtrip,
    lemma_le_value_4, pack_u32x4, push_u16_le, push_u32_le,
};
use super::error::AmlError;
use super::memory::{read_simple_view, min};
use super::transfer::{addr_hi, addr_lo, address_high, address_low, low_u16, low_u32, Transfer, TransferView};
use super::{
    BULK_REPLY_LEN, FLAG_KEEP_POWER_ON, REQ_BULKCMD, REQ_IDENTIFY_HOST, REQ_MODIFY_MEM, REQ_NOP,
    REQ_PASSWORD, REQ_READ_MEDIA, REQ_READ_MEM, REQ_RUN_IN_ADDR, REQ_TPL_CMD, REQ_TPL_STAT,
    REQ_WRITE_MEDIA, WRITE_MEDIA_CHECKSUM_ALG_ADDSUM,
};

verus! {

/// The request that applies modify-memory operation `opcode`.
pub open spec fn modify_memory_view(opcode: u16, address1: u32, data: u32, mask: u32, address2: u32) -> TransferView {
    TransferView::ControlOut {
        request: REQ_MODIFY_MEM,
        value: opcode,
        index: 0,
        data: le_bytes_u32(address1) + le_bytes_u32(data) + le_bytes_u32(mask) + le_bytes_u32(address2),
    }
}

/// Asks the SoC to apply modify-memory operation `opcode`; the four words
/// travel as sixteen little-endian bytes.
pub fn modify_memory(opcode: u16, address1: u32, data: u32, mask: u32, address2: u32) -> (t: Transfer)
    ensures
        t@ == modify_memory_view(opcode, address1, data, mask, address2),
{
    Transfer::ControlOut {
        request: REQ_MODIFY_MEM,
        value: opcode,
        index: 0,
        data: pack_u32x4(address1, data, mask, address2),
    }
}

/// Reads the 32-bit register at `address`: a read of four bytes.
pub fn read_reg(address: u32) -> (t: Transfer)
    ensures
        t@ == read_simple_view(address, 4),
{
    Transfer::ControlIn {
        request: REQ_READ_MEM,
        value: address_high(address),
        index: address_low(address),
        length: 4,
    }
}

/// The register value of the answer to [`read_reg`]: its first four bytes,
/// little-endian.
pub fn reg_value(reply: &[u8]) -> (v: u32)
    requires
        reply@.len() >= 4,
    ensures
        v == le_value(reply@.take(4)),
{
    proof {
        lemma_le_value_4(reply@.take(4));
    }
    reply[0] as u32 + 0x100 * (reply[1] as u32) + 0x1_0000 * (reply[2] as u32) + 0x100_0000 * (
    reply[3] as u32)
}

/// Writes `value` to the register at `address` (operation 0).
pub fn write_reg(address: u32, value: u32) -> (t: Transfer)
    ensures
        t@ == modify_memory_view(0, address, value, 0, 0),
{
    modify_memory(0, address, value, 0, 0)
}

/// ANDs the register at `address` with `mask` (operation 1).
pub fn mask_reg_and(address: u32, mask: u32) -> (t: Transfer)
    ensures
        t@ == modify_memory_view(1, address, 0, mask, 0),
{
    modify_memory(1, address, 0, mask, 0)
}

/// ORs the register at `address` with `mask` (operation 2).
pub fn mask_reg_or(address: u32, mask: u32) -> (t: Transfer)
    ensures
        t@ == modify_memory_view(2, address, 0, mask, 0),
{
    modify_memory(2, address, 0, mask, 0)
}

/// NANDs the register at `address` with `mask` (operation 3).
pub fn mask_reg_nand(address: u32, mask: u32) -> (t: Transfer)
    ensures
        t@ == modify_memory_view(3, address, 0, mask, 0),
{
    modify_memory(3, address, 0, mask, 0)
}

/// Writes the bits of `value` selected by `mask` to the register at `address` (operation 4).
pub fn write_reg_bits(address: u32, mask: u32, value: u32) -> (t: Transfer)
    ensures
        t@ == modify_memory_view(4, address, value, mask, 0),
{
    modify_memory(4, address, value, mask, 0)
}

/// Copies the register at `source` to `dest` (operation 5).
pub fn copy_reg(source: u32, dest: u32) -> (t: Transfer)
    ensures
        t@ == modify_memory_view(5, dest, 0, 0, source),
{
    modify_memory(5, dest, 0, 0, source)
}

/// Copies the register at `source` to `dest` through `mask` (operation 6).
pub fn copy_reg_mask_and(source: u32, dest: u32, mask: u32) -> (t: Transfer)
    ensures
        t@ == modify_memory_view(6, dest, 0, mask, source),
{
    modify_memory(6, dest, 0, mask, source)
}

/// Copies `n` bytes from `src` to `dest` (operation 7).
pub fn memcpy(dest: u32, src: u32, n: u32) -> (t: Transfer)
    ensures
        t@ == modify_memory_view(7, src, n, 0, dest),
{
    modify_memory(7, src, n, 0, dest)
}

/// Runs the code at `address`; with `keep_power` the address word carries
/// the keep-power-on flag.
pub fn run(address: u32, keep_power: bool) -> (t: Transfer)
    ensures
        t@ == (TransferView::ControlOut {
            request: REQ_RUN_IN_ADDR,
            value: addr_hi(address),
            index: addr_lo(address),
            data: le_bytes_u32(
                if keep_power {
                    address | FLAG_KEEP_POWER_ON
                } else {
                    address
                },
            ),
        }),
{
    let data_val = if keep_power {
        address | FLAG_KEEP_POWER_ON
    } else {
        address
    };
    let mut control_data = Vec::with_capacity(4);
    push_u32_le(&mut control_data, data_val);
    assert(control_data@ =~= le_bytes_u32(data_val));
    Transfer::ControlOut {
        request: REQ_RUN_IN_ADDR,
        value: address_high(address),
        index: address_low(address),
        data: control_data,
    }
}

/// Asks the SoC who it is: an answer of at most 8 bytes.
pub fn identify() -> (t: Transfer)
    ensures
        t@ == (TransferView::ControlIn { request: REQ_IDENTIFY_HOST, value: 0, index: 0, length: 8 }),
{
    Transfer::ControlIn { request: REQ_IDENTIFY_HOST, value: 0, index: 0, length: 8 }
}

/// The characters whose code points are the bytes of `bytes`.
pub open spec fn latin1_chars(bytes: Seq<u8>) -> Seq<char> {
    Seq::new(bytes.len(), |i: int| bytes[i] as char)
}

/// Appends `c` to `s`, as std's `String::push` does.
#[verifier::external_body]
pub(crate) fn string_push(s: &mut String, c: char)
    ensures
        final(s)@ == old(s)@.push(c),
{
    s.push(c);
}

/// The answer to [`identify`] as a string: each byte becomes the character
/// with that code point.
pub fn identify_string(reply: &[u8]) -> (s: String)
    ensures
        s@ == latin1_chars(reply@),
{
    let mut s = String::new();
    let mut i: usize = 0;
    while i < reply.len()
        invariant
            i <= reply@.len(),
            s@ == latin1_chars(reply@.take(i as int)),
        decreases reply@.len() - i,
    {
        string_push(&mut s, reply[i] as char);
        assert(latin1_chars(reply@.take(i + 1)) =~= latin1_chars(reply@.take(i as int)).push(
            reply@[i as int] as char,
        ));
        i = i + 1;
    }
    assert(reply@.take(reply@.len() as int) =~= reply@);
    s
}

/// `command` as bytes with a terminating zero byte.
pub open spec fn terminated(command: &str) -> Seq<u8> {
    command.spec_bytes().push(0u8)
}

/// The bytes of `command` followed by a zero byte.
fn terminated_bytes(command: &str) -> (v: Vec<u8>)
    ensures
        v@ == terminated(command),
{
    let mut v = vstd::slice::slice_to_vec(command.as_bytes());
    v.push(0u8);
    v
}

/// Sends a TPL command with `subcode`; a command of 128 bytes or more once
/// terminated is refused.
pub fn tpl_command(subcode: u16, command: &str) -> (r: Result<Transfer, AmlError>)
    requires
        command.spec_bytes().len() < usize::MAX,
    ensures
        r is Err <==> terminated(command).len() >= 128,
        r matches Err(e) ==> e == AmlError::TplCommandTooLong(terminated(command).len() as usize),
        r matches Ok(t) ==> t@ == (TransferView::ControlOut {
            request: REQ_TPL_CMD,
            value: 0,
            index: subcode,
            data: terminated(command),
        }),
{
    let bytes = terminated_bytes(command);
    if bytes.len() >= 128 {
        return Err(AmlError::TplCommandTooLong(bytes.len()));
    }
    Ok(Transfer::ControlOut { request: REQ_TPL_CMD, value: 0, index: subcode, data: bytes })
}

/// Reads the TPL status: an answer of at most 64 bytes.
pub fn tpl_stat() -> (t: Transfer)
    ensures
        t@ == (TransferView::ControlIn { request: REQ_TPL_STAT, value: 0, index: 0, length: 0x40 }),
{
    Transfer::ControlIn { request: REQ_TPL_STAT, value: 0, index: 0, length: 0x40 }
}

/// Sends `password` to unlock the SoC.
pub fn send_password(password: &[u8]) -> (t: Transfer)
    ensures
        t@ == (TransferView::ControlOut { request: REQ_PASSWORD, value: 0, index: 0, data: password@ }),
{
    Transfer::ControlOut {
        request: REQ_PASSWORD,
        value: 0,
        index: 0,
        data: vstd::slice::slice_to_vec(password),
    }
}

/// Does nothing on the SoC.
pub fn nop() -> (t: Transfer)
    ensures
        t@ == (TransferView::ControlOut { request: REQ_NOP, value: 0, index: 0, data: Seq::empty() }),
{
    Transfer::ControlOut { request: REQ_NOP, value: 0, index: 0, data: Vec::new() }
}

/// Reads `size` bytes of media: a request that announces the size and its
/// count of 4 KiB blocks, then one bulk read.
pub fn read_media(size: usize) -> (ts: Vec<Transfer>)
    requires
        size + 0x1000 <= usize::MAX,
    ensures
        ts@.len() == 2,
        ts@[0]@ == (TransferView::ControlOut {
            request: REQ_READ_MEDIA,
            value: ((size as int) % 0x1_0000) as u16,
            index: ((((0x1000 + size - 1) as int) / 0x1000) % 0x1_0000) as u16,
            data: le_bytes_u32(0) + le_bytes_u32(((size as int) % 0x1_0000_0000) as u32) + le_bytes_u32(0)
                + le_bytes_u32(0),
        }),
        ts@[1]@ == (TransferView::BulkIn { len: size }),
{
    let block_length: usize = 0x1000;
    let blocks = (block_length + size - 1) / block_length;
    let control_data = pack_u32x4(0, low_u32(size), 0, 0);
    let mut ts = Vec::new();
    ts.push(
        Transfer::ControlOut {
            request: REQ_READ_MEDIA,
            value: low_u16(size),
            index: low_u16(blocks),
            data: control_data,
        },
    );
    ts.push(Transfer::BulkIn { len: size });
    ts
}

/// The 32-byte header of a media write.
pub open spec fn write_media_header(data: Seq<u8>, ack_len: u16, seq: u32, retry_times: u32) -> Seq<u8> {
    le_bytes_u32(retry_times) + le_bytes_u32((data.len() % 0x1_0000_0000) as u32) + le_bytes_u32(seq)
        + le_bytes_u32(spec_amls_checksum(data)) + le_bytes_u16(WRITE_MEDIA_CHECKSUM_ALG_ADDSUM)
        + le_bytes_u16(ack_len) + Seq::new(12, |i: int| 0u8)
}

/// Writes `data` to media: a request with a header that carries the data's
/// length and additive checksum, then one bulk write of the data.
pub fn write_media(data: &[u8], ack_len: u16, seq: u32, retry_times: u32) -> (ts: Vec<Transfer>)
    ensures
        ts@.len() == 2,
        ts@[0]@ == (TransferView::ControlOut {
            request: REQ_WRITE_MEDIA,
            value: 1,
            index: 0xffff,
            data: write_media_header(data@, ack_len, seq, retry_times),
        }),
        ts@[1]@ == (TransferView::BulkOut { data: data@ }),
{
    let checksum = amls_checksum(data);
    let mut control_data = Vec::with_capacity(0x20);
    push_u32_le(&mut control_data, retry_times);
    push_u32_le(&mut control_data, low_u32(data.len()));
    push_u32_le(&mut control_data, seq);
    push_u32_le(&mut control_data, checksum);
    push_u16_le(&mut control_data, WRITE_MEDIA_CHECKSUM_ALG_ADDSUM);
    push_u16_le(&mut control_data, ack_len);
    control_data.resize(0x20, 0u8);
    assert(control_data@ =~= write_media_header(data@, ack_len, seq, retry_times));
    let mut ts = Vec::new();
    ts.push(Transfer::ControlOut { request: REQ_WRITE_MEDIA, value: 1, index: 0xffff, data: control_data });
    ts.push(Transfer::BulkOut { data: vstd::slice::slice_to_vec(data) });
    ts
}

/// The header of a media write is 32 bytes: the retry count, the data's
/// length modulo 2^32, the sequence number and the additive checksum of all
/// of the data, each a little-endian word; then the checksum algorithm and
/// the acknowledgement length, each a little-endian half-word; then zeros.
pub proof fn lemma_write_media_header_fields(data: Seq<u8>, ack_len: u16, seq: u32, retry_times: u32)
    ensures
        ({
            let h = write_media_header(data, ack_len, seq, retry_times);
            &&& h.len() == 32
            &&& le_value(h.subrange(0, 4)) == retry_times
            &&& le_value(h.subrange(4, 8)) == data.len() % 0x1_0000_0000
            &&& le_value(h.subrange(8, 12)) == seq
            &&& le_value(h.subrange(12, 16)) == spec_amls_checksum(data)
            &&& le_value(h.subrange(16, 18)) == 0xef
            &&& le_value(h.subrange(18, 20)) == ack_len
            &&& forall|i: int| 20 <= i < 32 ==> h[i] == 0
        }),
{
    let h = write_media_header(data, ack_len, seq, retry_times);
    let n = (data.len() % 0x1_0000_0000) as u32;
    let c = spec_amls_checksum(data);
    assert(h.subrange(0, 4) =~= le_bytes_u32(retry_times));
    assert(h.subrange(4, 8) =~= le_bytes_u32(n));
    assert(h.subrange(8, 12) =~= le_bytes_u32(seq));
    assert(h.subrange(12, 16) =~= le_bytes_u32(c));
    assert(h.subrange(16, 18) =~= le_bytes_u16(WRITE_MEDIA_CHECKSUM_ALG_ADDSUM));
    assert(h.subrange(18, 20) =~= le_bytes_u16(ack_len));
    lemma_le_bytes_u32_roundtrip(retry_times);
    lemma_le_bytes_u32_roundtrip(n);
    lemma_le_bytes_u32_roundtrip(seq);
    lemma_le_bytes_u32_roundtrip(c);
    lemma_le_bytes_u16_roundtrip(WRITE_MEDIA_CHECKSUM_ALG_ADDSUM);
    lemma_le_bytes_u16_roundtrip(ack_len);
}

/// Data that ends in a partial word: the checksum in the media-write header
/// adds that last word too, read as if padded with zero bytes.
pub proof fn lemma_write_media_checksum_tail(
    words: Seq<u8>,
    tail: Seq<u8>,
    ack_len: u16,
    seq: u32,
    retry_times: u32,
)
    requires
        words.len() % 4 == 0,
        tail.len() <= 4,
    ensures
        le_value(write_media_header(words + tail, ack_len, seq, retry_times).subrange(12, 16))
            == (spec_amls_checksum(words) + le_value(tail)) % 0x1_0000_0000,
{
    lemma_write_media_header_fields(words + tail, ack_len, seq, retry_times);
    lemma_checksum_tail(words, tail);
}

/// Reads at most `size` bytes from the bulk-IN endpoint.
pub fn dev_read(size: usize) -> (t: Transfer)
    ensures
        t@ == (TransferView::BulkIn { len: size }),
{
    Transfer::BulkIn { len: size }
}

/// Sends a U-Boot bulk command, then, with `read_status`, reads its
/// 512-byte reply; a command of 128 bytes or more once terminated is refused.
pub fn bulk_cmd(command: &str, read_status: bool) -> (r: Result<Vec<Transfer>, AmlError>)
    requires
        command.spec_bytes().len() < usize::MAX,
    ensures
        r is Err <==> terminated(command).len() >= 128,
        r matches Err(e) ==> e == AmlError::BulkCommandTooLong(terminated(command).len() as usize),
        r matches Ok(ts) ==> {
            &&& ts@.len() == if read_status {
                2int
            } else {
                1int
            }
            &&& ts@[0]@ == (TransferView::ControlOut {
                request: REQ_BULKCMD,
                value: 0,
                index: 2,
                data: terminated(command),
            })
            &&& read_status ==> ts@[1]@ == (TransferView::BulkIn { len: BULK_REPLY_LEN })
        },
{
    let bytes = terminated_bytes(command);
    if bytes.len() >= 128 {
        return Err(AmlError::BulkCommandTooLong(bytes.len()));
    }
    let mut ts = Vec::new();
    ts.push(Transfer::ControlOut { request: REQ_BULKCMD, value: 0, index: 2, data: bytes });
    if read_status {
        ts.push(bulk_cmd_stat());
    }
    Ok(ts)
}

/// Reads the 512-byte reply of a bulk command.
pub fn bulk_cmd_stat() -> (t: Transfer)
    ensures
        t@ == (TransferView::BulkIn { len: BULK_REPLY_LEN }),
{
    Transfer::BulkIn { len: BULK_REPLY_LEN }
}

} // verus!
