use vstd::prelude::*;

use super::checksum::{amls_checksum, spec_amls_checksum};
use super::encoding::{
    le_bytes_u32, le_value, lemma_le_bytes_u32_roundtrip, lemma_le_value_4, push_u32_le,
};
use super::error::AmlError;
use super::memory::{chunk, min};
use super::large::lemma_bulk_sent_concat;
use super::transfer::{bulk_sent_bytes, copy_range, low_u16, transfers_view, Transfer, TransferView};
use super::{
    AMLC_AMLS_BLOCK_LENGTH, AMLC_MAX_BLOCK_LENGTH, AMLC_MAX_TRANSFER_LENGTH, REQ_GET_AMLC,
    REQ_WRITE_AMLC,
};

verus! {

/// The tag `AMLC` that opens a request of the SoC for data.
pub open spec fn amlc_tag() -> Seq<u8> {
    seq![0x41u8, 0x4du8, 0x4cu8, 0x43u8]
}

/// The tag `AMLS` that opens the block that closes a data write.
pub open spec fn amls_tag() -> Seq<u8> {
    seq![0x41u8, 0x4du8, 0x4cu8, 0x53u8]
}

/// The tag `OKAY` of an acknowledgement.
pub open spec fn okay_tag() -> Seq<u8> {
    seq![0x4fu8, 0x4bu8, 0x41u8, 0x59u8]
}

/// Waits for the SoC to ask for data: an announcing request, then a bulk
/// read of the 512-byte AMLC request.
pub fn get_boot_amlc() -> (ts: Vec<Transfer>)
    ensures
        transfers_view(ts@) == seq![
            TransferView::ControlOut { request: REQ_GET_AMLC, value: 0x200, index: 0, data: Seq::empty() },
            TransferView::BulkIn { len: AMLC_AMLS_BLOCK_LENGTH },
        ],
{
    let mut ts = Vec::new();
    ts.push(
        Transfer::ControlOut {
            request: REQ_GET_AMLC,
            value: AMLC_AMLS_BLOCK_LENGTH as u16,
            index: 0,
            data: Vec::new(),
        },
    );
    ts.push(Transfer::BulkIn { len: AMLC_AMLS_BLOCK_LENGTH });
    assert(transfers_view(ts@) =~= seq![
        TransferView::ControlOut { request: REQ_GET_AMLC, value: 0x200, index: 0, data: Seq::empty() },
        TransferView::BulkIn { len: AMLC_AMLS_BLOCK_LENGTH },
    ]);
    ts
}

/// Whether `request` is a well-formed AMLC request: at least 16 bytes,
/// opening with `AMLC`.
pub open spec fn is_amlc_request(request: Seq<u8>) -> bool {
    request.len() >= 16 && request.take(4) == amlc_tag()
}

/// Reads an AMLC request of the SoC: the length and the offset of the data
/// it asks for, little-endian words at bytes 8 and 12.  A request of fewer
/// than 16 bytes is refused whole; one with another tag is refused with its
/// first 16 bytes.
pub fn parse_amlc_request(request: Vec<u8>) -> (r: Result<(u32, u32), AmlError>)
    ensures
        r is Ok <==> is_amlc_request(request@),
        r matches Ok((length, offset)) ==> length == le_value(request@.subrange(8, 12)) && offset
            == le_value(request@.subrange(12, 16)),
        r matches Err(e) ==> e matches AmlError::InvalidAmlcRequest(bytes) && bytes@ == if request@.len()
            < 16 {
            request@
        } else {
            request@.take(16)
        },
{
    if request.len() < 16 {
        return Err(AmlError::InvalidAmlcRequest(request));
    }
    if !(request[0] == 0x41 && request[1] == 0x4d && request[2] == 0x4c && request[3] == 0x43) {
        proof {
            if request@.take(4) == amlc_tag() {
                assert(request@.take(4)[0] == request@[0]);
                assert(request@.take(4)[1] == request@[1]);
                assert(request@.take(4)[2] == request@[2]);
                assert(request@.take(4)[3] == request@[3]);
            }
        }
        return Err(AmlError::InvalidAmlcRequest(copy_range(request.as_slice(), 0, 16)));
    }
    assert(request@.take(4) =~= amlc_tag());
    proof {
        lemma_le_value_4(request@.subrange(8, 12));
        lemma_le_value_4(request@.subrange(12, 16));
    }
    let length = request[8] as u32 + 0x100 * (request[9] as u32) + 0x1_0000 * (request[10] as u32)
        + 0x100_0000 * (request[11] as u32);
    let offset = request[12] as u32 + 0x100 * (request[13] as u32) + 0x1_0000 * (request[14] as u32)
        + 0x100_0000 * (request[15] as u32);
    Ok((length, offset))
}

/// The acknowledgement of an AMLC request: `OKAY` and twelve zero bytes.
pub open spec fn amlc_okay_bytes() -> Seq<u8> {
    okay_tag() + le_bytes_u32(0) + le_bytes_u32(0) + le_bytes_u32(0)
}

/// Acknowledges an AMLC request with a bulk write of `OKAY` and twelve zero bytes.
pub fn amlc_okay() -> (t: Transfer)
    ensures
        t@ == (TransferView::BulkOut { data: amlc_okay_bytes() }),
{
    let mut okay = Vec::with_capacity(16);
    okay.push(0x4fu8);
    okay.push(0x4bu8);
    okay.push(0x41u8);
    okay.push(0x59u8);
    push_u32_le(&mut okay, 0);
    push_u32_le(&mut okay, 0);
    push_u32_le(&mut okay, 0);
    assert(okay@ =~= amlc_okay_bytes());
    Transfer::BulkOut { data: okay }
}

/// Number of 16 KiB bulk writes of `len` bytes of AMLC data.
pub open spec fn amlc_block_count(len: nat) -> nat {
    ((len + AMLC_MAX_BLOCK_LENGTH - 1) / AMLC_MAX_BLOCK_LENGTH as int) as nat
}

/// The transfers of one AMLC data write of `data` at AMLC offset `offset`:
/// the announcing request, the data in bulk writes of at most 16 KiB, and
/// the read of the 16-byte acknowledgement.
pub open spec fn amlc_write_view(offset: nat, data: Seq<u8>) -> Seq<TransferView> {
    seq![
        TransferView::ControlOut {
            request: REQ_WRITE_AMLC,
            value: ((offset / AMLC_AMLS_BLOCK_LENGTH as nat) % 0x1_0000) as u16,
            index: ((data.len() - 1) % 0x1_0000) as u16,
            data: Seq::empty(),
        },
    ] + amlc_blocks(data) + seq![TransferView::BulkIn { len: 16 }]
}

/// The bulk writes of AMLC data: at most 16 KiB each.
pub open spec fn amlc_blocks(data: Seq<u8>) -> Seq<TransferView> {
    Seq::new(
        amlc_block_count(data.len()),
        |j: int| TransferView::BulkOut { data: chunk(data, AMLC_MAX_BLOCK_LENGTH as int, j) },
    )
}

/// Writes `data` at AMLC offset `offset`; the reply to the last transfer
/// goes to [`check_amlc_ack`].
pub fn write_amlc_data_inner(offset: usize, data: &[u8]) -> (ts: Vec<Transfer>)
    requires
        data@.len() > 0,
    ensures
        transfers_view(ts@) == amlc_write_view(offset as nat, data@),
{
    let write_length = data.len();
    let block_count = write_length / AMLC_MAX_BLOCK_LENGTH + if write_length % AMLC_MAX_BLOCK_LENGTH
        > 0 {
        1
    } else {
        0
    };
    let mut ts: Vec<Transfer> = Vec::new();
    ts.push(
        Transfer::ControlOut {
            request: REQ_WRITE_AMLC,
            value: low_u16(offset / AMLC_AMLS_BLOCK_LENGTH),
            index: low_u16(write_length - 1),
            data: Vec::new(),
        },
    );
    let ghost blocks = amlc_blocks(data@);
    let ghost head = transfers_view(ts@);
    assert(block_count == blocks.len());
    let mut data_offset: usize = 0;
    let mut j: usize = 0;
    while j < block_count
        invariant
            write_length == data@.len(),
            blocks == amlc_blocks(data@),
            block_count == blocks.len(),
            j <= block_count,
            j < block_count ==> data_offset == j * AMLC_MAX_BLOCK_LENGTH,
            j < block_count ==> data_offset < write_length,
            transfers_view(ts@) == head + blocks.take(j as int),
        decreases block_count - j,
    {
        let remain = write_length - data_offset;
        let block_len = if remain < AMLC_MAX_BLOCK_LENGTH {
            remain
        } else {
            AMLC_MAX_BLOCK_LENGTH
        };
        let ghost old_ts = ts@;
        ts.push(Transfer::BulkOut { data: copy_range(data, data_offset, data_offset + block_len) });
        assert(ts@.drop_last() == old_ts);
        assert(transfers_view(ts@) =~= transfers_view(old_ts).push(ts@.last()@));
        assert(blocks.take(j + 1) =~= blocks.take(j as int).push(blocks[j as int]));
        data_offset = data_offset + block_len;
        j = j + 1;
        assert(j < block_count ==> data_offset < write_length);
    }
    let ghost body = ts@;
    ts.push(Transfer::BulkIn { len: 16 });
    assert(ts@.drop_last() == body);
    assert(transfers_view(ts@) =~= transfers_view(body).push(ts@.last()@));
    assert(blocks.take(block_count as int) =~= blocks);
    assert(transfers_view(ts@) =~= amlc_write_view(offset as nat, data@));
    ts
}

/// Whether `ack` acknowledges a data write: it opens with `OKAY`.
pub open spec fn is_okay_ack(ack: Seq<u8>) -> bool {
    ack.len() >= 4 && ack.take(4) == okay_tag()
}

/// Checks the acknowledgement of an AMLC data write; any other reply is
/// refused whole.
pub fn check_amlc_ack(ack: Vec<u8>) -> (r: Result<(), AmlError>)
    ensures
        r is Ok <==> is_okay_ack(ack@),
        r matches Err(e) ==> e matches AmlError::InvalidAmlcAck(bytes) && bytes@ == ack@,
{
    if ack.len() < 4 || !(ack[0] == 0x4f && ack[1] == 0x4b && ack[2] == 0x41 && ack[3] == 0x59) {
        proof {
            if is_okay_ack(ack@) {
                assert(ack@.take(4)[0] == ack@[0]);
                assert(ack@.take(4)[1] == ack@[1]);
                assert(ack@.take(4)[2] == ack@[2]);
                assert(ack@.take(4)[3] == ack@[3]);
            }
        }
        return Err(AmlError::InvalidAmlcAck(ack));
    }
    assert(ack@.take(4) =~= okay_tag());
    Ok(())
}

/// The 512-byte AMLS block that closes a data write: `AMLS`, the sequence
/// number, three zero bytes, the checksum of the data, four zero bytes, the
/// data's bytes 16 to 512 where it has them, and zero bytes up to 512.
pub open spec fn amls_block(seq: u8, data: Seq<u8>) -> Seq<u8> {
    let head = amls_tag() + seq![seq, 0u8, 0u8, 0u8] + le_bytes_u32(spec_amls_checksum(data))
        + le_bytes_u32(0);
    let body = if data.len() > 16 {
        data.subrange(16, min(data.len() as int, 512))
    } else {
        Seq::empty()
    };
    head + body + Seq::new((512 - head.len() - body.len()) as nat, |i: int| 0u8)
}

/// Builds the AMLS block that closes a data write.
pub fn amls_block_bytes(seq: u8, data: &[u8]) -> (block: Vec<u8>)
    ensures
        block@ == amls_block(seq, data@),
        block@.len() == AMLC_AMLS_BLOCK_LENGTH,
{
    let checksum = amls_checksum(data);
    let mut amls = Vec::with_capacity(AMLC_AMLS_BLOCK_LENGTH);
    amls.push(0x41u8);
    amls.push(0x4du8);
    amls.push(0x4cu8);
    amls.push(0x53u8);
    amls.push(seq);
    amls.push(0u8);
    amls.push(0u8);
    amls.push(0u8);
    push_u32_le(&mut amls, checksum);
    push_u32_le(&mut amls, 0);
    let ghost head = amls_tag() + seq![seq, 0u8, 0u8, 0u8] + le_bytes_u32(spec_amls_checksum(data@))
        + le_bytes_u32(0);
    assert(amls@ =~= head);
    let ghost body = if data@.len() > 16 {
        data@.subrange(16, min(data@.len() as int, 512))
    } else {
        Seq::<u8>::empty()
    };
    if data.len() > 16 {
        let end = if data.len() < 512 {
            data.len()
        } else {
            512
        };
        amls.extend_from_slice(&data[16..end]);
    }
    assert(amls@ =~= head + body);
    if amls.len() < AMLC_AMLS_BLOCK_LENGTH {
        amls.resize(AMLC_AMLS_BLOCK_LENGTH, 0u8);
    }
    assert(amls@ =~= amls_block(seq, data@));
    amls
}

/// One AMLC data write: where the data goes in the AMLC image, and the data.
#[derive(Debug, PartialEq, Eq)]
pub struct AmlcWrite {
    pub offset: usize,
    pub data: Vec<u8>,
}

/// Number of 64 KiB data writes of `len` bytes.
pub open spec fn amlc_transfer_count(len: nat) -> nat {
    ((len + AMLC_MAX_TRANSFER_LENGTH - 1) / AMLC_MAX_TRANSFER_LENGTH as int) as nat
}

/// The data writes that answer an AMLC request: the data in writes of at
/// most 64 KiB at their offsets in it, then the AMLS block at `amlc_offset`.
pub open spec fn amlc_writes_view(seq: u8, amlc_offset: nat, data: Seq<u8>) -> Seq<(nat, Seq<u8>)> {
    amlc_pieces(data).push((amlc_offset, amls_block(seq, data)))
}

/// The data of an AMLC answer in writes of at most 64 KiB, each with its
/// offset in the data.
pub open spec fn amlc_pieces(data: Seq<u8>) -> Seq<(nat, Seq<u8>)> {
    Seq::new(
        amlc_transfer_count(data.len()),
        |k: int|
            ((AMLC_MAX_TRANSFER_LENGTH * k) as nat, chunk(data, AMLC_MAX_TRANSFER_LENGTH as int, k)),
    )
}

/// The writes of an [`AmlcWrite`] sequence as mathematical values.
pub open spec fn amlc_writes(ws: Seq<AmlcWrite>) -> Seq<(nat, Seq<u8>)> {
    ws.map_values(|w: AmlcWrite| (w.offset as nat, w.data@))
}

/// Answers an AMLC request with `data`: each write goes to
/// [`write_amlc_data_inner`] and its acknowledgement to [`check_amlc_ack`],
/// in order.
pub fn write_amlc_data(seq: u8, amlc_offset: usize, data: &[u8]) -> (ws: Vec<AmlcWrite>)
    ensures
        amlc_writes(ws@) == amlc_writes_view(seq, amlc_offset as nat, data@),
        forall|i: int| 0 <= i < ws@.len() ==> #[trigger] ws@[i].data@.len() > 0,
{
    let data_len = data.len();
    let transfer_count = data_len / AMLC_MAX_TRANSFER_LENGTH + if data_len % AMLC_MAX_TRANSFER_LENGTH
        != 0 {
        1
    } else {
        0
    };
    let ghost pieces = amlc_pieces(data@);
    assert(transfer_count == pieces.len());
    let mut ws: Vec<AmlcWrite> = Vec::new();
    let mut offset: usize = 0;
    let mut k: usize = 0;
    while k < transfer_count
        invariant
            data_len == data@.len(),
            pieces == amlc_pieces(data@),
            transfer_count == pieces.len(),
            k <= transfer_count,
            k < transfer_count ==> offset == k * AMLC_MAX_TRANSFER_LENGTH,
            k < transfer_count ==> offset < data_len,
            amlc_writes(ws@) == pieces.take(k as int),
            forall|i: int| 0 <= i < ws@.len() ==> #[trigger] ws@[i].data@.len() > 0,
        decreases transfer_count - k,
    {
        let write_length = if data_len - offset < AMLC_MAX_TRANSFER_LENGTH {
            data_len - offset
        } else {
            AMLC_MAX_TRANSFER_LENGTH
        };
        let ghost old_ws = ws@;
        ws.push(AmlcWrite { offset, data: copy_range(data, offset, offset + write_length) });
        assert(ws@.drop_last() == old_ws);
        assert(amlc_writes(ws@) =~= amlc_writes(old_ws).push((offset as nat, ws@.last().data@)));
        assert(pieces.take(k + 1) =~= pieces.take(k as int).push(pieces[k as int]));
        offset = offset + write_length;
        k = k + 1;
        assert(k < transfer_count ==> offset < data_len);
    }
    assert(pieces.take(transfer_count as int) =~= pieces);
    let ghost old_ws = ws@;
    ws.push(AmlcWrite { offset: amlc_offset, data: amls_block_bytes(seq, data) });
    assert(ws@.drop_last() == old_ws);
    assert(amlc_writes(ws@) =~= amlc_writes(old_ws).push((amlc_offset as nat, ws@.last().data@)));
    ws
}

/// What follows the acknowledgement `ack` of write `k` of an AMLC answer:
/// the next write while one is left, nothing once the last write is
/// acknowledged, and for any acknowledgement other than `OKAY` its refusal,
/// which ends the answer: no later write, and so no AMLS block, is sent.
pub fn amlc_step(writes: &Vec<AmlcWrite>, k: usize, ack: Vec<u8>) -> (r: Result<Option<usize>, AmlError>)
    requires
        k < writes@.len(),
    ensures
        is_okay_ack(ack@) && k + 1 < writes@.len() ==> r == Ok::<Option<usize>, AmlError>(
            Some((k + 1) as usize),
        ),
        is_okay_ack(ack@) && k + 1 == writes@.len() ==> r == Ok::<Option<usize>, AmlError>(None),
        !is_okay_ack(ack@) ==> (r matches Err(e) && e matches AmlError::InvalidAmlcAck(bytes)
            && bytes@ == ack@),
{
    match check_amlc_ack(ack) {
        Err(e) => Err(e),
        Ok(()) => {
            if k < writes.len() - 1 {
                Ok(Some(k + 1))
            } else {
                Ok(None)
            }
        },
    }
}

proof fn lemma_amlc_blocks_prefix(data: Seq<u8>, j: nat)
    requires
        j <= amlc_block_count(data.len()),
    ensures
        bulk_sent_bytes(amlc_blocks(data).take(j as int)) == data.take(
            min(AMLC_MAX_BLOCK_LENGTH * j, data.len() as int),
        ),
    decreases j,
{
    let blocks = amlc_blocks(data);
    if j == 0 {
        assert(blocks.take(0) =~= Seq::<TransferView>::empty());
        assert(data.take(0) =~= Seq::<u8>::empty());
    } else {
        lemma_amlc_blocks_prefix(data, (j - 1) as nat);
        assert(blocks.take(j as int).drop_last() =~= blocks.take(j - 1));
        assert(blocks.take(j as int).last() == blocks[j - 1]);
        assert(data.take(min(AMLC_MAX_BLOCK_LENGTH * j, data.len() as int)) =~= data.take(
            min(AMLC_MAX_BLOCK_LENGTH * (j - 1), data.len() as int),
        ) + chunk(data, AMLC_MAX_BLOCK_LENGTH as int, j - 1));
    }
}

/// One AMLC data write sends exactly its data over the bulk endpoint, in
/// writes of at most 16 KiB.
pub proof fn lemma_amlc_write_sends_data(offset: nat, data: Seq<u8>)
    ensures
        bulk_sent_bytes(amlc_write_view(offset, data)) == data,
{
    let n = amlc_block_count(data.len());
    lemma_amlc_blocks_prefix(data, n);
    assert(amlc_blocks(data).take(n as int) =~= amlc_blocks(data));
    assert(data.take(min(AMLC_MAX_BLOCK_LENGTH * n, data.len() as int)) =~= data);
    let head = seq![
        TransferView::ControlOut {
            request: REQ_WRITE_AMLC,
            value: ((offset / AMLC_AMLS_BLOCK_LENGTH as nat) % 0x1_0000) as u16,
            index: ((data.len() - 1) % 0x1_0000) as u16,
            data: Seq::empty(),
        },
    ];
    let tail = seq![TransferView::BulkIn { len: 16 }];
    lemma_bulk_sent_concat(head, amlc_blocks(data));
    lemma_bulk_sent_concat(head + amlc_blocks(data), tail);
    reveal_with_fuel(bulk_sent_bytes, 2);
    assert(head.drop_last() =~= Seq::<TransferView>::empty());
    assert(tail.drop_last() =~= Seq::<TransferView>::empty());
    assert(bulk_sent_bytes(amlc_write_view(offset, data)) =~= data);
}

/// The data of a sequence of AMLC writes, joined in order.
pub open spec fn joined_writes(ws: Seq<(nat, Seq<u8>)>) -> Seq<u8>
    decreases ws.len(),
{
    if ws.len() == 0 {
        Seq::empty()
    } else {
        joined_writes(ws.drop_last()) + ws.last().1
    }
}

proof fn lemma_amlc_pieces_prefix(data: Seq<u8>, k: nat)
    requires
        k <= amlc_transfer_count(data.len()),
    ensures
        joined_writes(amlc_pieces(data).take(k as int)) == data.take(
            min(AMLC_MAX_TRANSFER_LENGTH * k, data.len() as int),
        ),
    decreases k,
{
    let ps = amlc_pieces(data);
    if k == 0 {
        assert(ps.take(0) =~= Seq::<(nat, Seq<u8>)>::empty());
        assert(data.take(0) =~= Seq::<u8>::empty());
    } else {
        lemma_amlc_pieces_prefix(data, (k - 1) as nat);
        assert(ps.take(k as int).drop_last() =~= ps.take(k - 1));
        assert(ps.take(k as int).last() == ps[k - 1]);
        assert(data.take(min(AMLC_MAX_TRANSFER_LENGTH * k, data.len() as int)) =~= data.take(
            min(AMLC_MAX_TRANSFER_LENGTH * (k - 1), data.len() as int),
        ) + chunk(data, AMLC_MAX_TRANSFER_LENGTH as int, k - 1));
    }
}

/// The writes that answer an AMLC request carry the data, each at its own
/// offset in it and none larger than 64 KiB, then the AMLS block at the
/// requested offset: 512 bytes that carry the checksum of the data.
pub proof fn lemma_amlc_answer_covers_data(seq: u8, amlc_offset: nat, data: Seq<u8>)
    ensures
        ({
            let ws = amlc_writes_view(seq, amlc_offset, data);
            &&& joined_writes(ws.drop_last()) == data
            &&& forall|k: int|
                0 <= k < ws.len() - 1 ==> (#[trigger] ws[k]).0 == AMLC_MAX_TRANSFER_LENGTH * k
                    && ws[k].1.len() <= AMLC_MAX_TRANSFER_LENGTH && ws[k].1 == data.subrange(
                    ws[k].0 as int,
                    (ws[k].0 + ws[k].1.len()) as int,
                )
            &&& ws.last() == (amlc_offset, amls_block(seq, data))
            &&& amls_block(seq, data).len() == AMLC_AMLS_BLOCK_LENGTH
            &&& le_value(amls_block(seq, data).subrange(8, 12)) == spec_amls_checksum(data)
        }),
{
    let ws = amlc_writes_view(seq, amlc_offset, data);
    let n = amlc_transfer_count(data.len());
    lemma_amlc_pieces_prefix(data, n);
    assert(ws.drop_last() =~= amlc_pieces(data));
    assert(amlc_pieces(data).take(n as int) =~= amlc_pieces(data));
    assert(data.take(min(AMLC_MAX_TRANSFER_LENGTH * n, data.len() as int)) =~= data);
    let block = amls_block(seq, data);
    assert(block.subrange(8, 12) =~= le_bytes_u32(spec_amls_checksum(data)));
    lemma_le_bytes_u32_roundtrip(spec_amls_checksum(data));
}

} // verus!
