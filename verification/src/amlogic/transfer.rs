use vstd::prelude::*;

use super::encoding::le_value;
use super::error::AmlError;

verus! {

/// One USB transfer between the host and the SoC.
///
/// Control transfers are vendor requests to the device; bulk transfers go to
/// the bulk-OUT endpoint 0x02 or come from the bulk-IN endpoint 0x81.
#[derive(Debug, PartialEq, Eq)]
pub enum Transfer {
    /// Vendor OUT control transfer (bmRequestType 0x40).
    ControlOut { request: u8, value: u16, index: u16, data: Vec<u8> },
    /// Vendor IN control transfer (bmRequestType 0xC0) of at most `length` bytes.
    ControlIn { request: u8, value: u16, index: u16, length: u16 },
    /// Write of `data` to the bulk-OUT endpoint.
    BulkOut { data: Vec<u8> },
    /// Read of at most `len` bytes from the bulk-IN endpoint.
    BulkIn { len: usize },
}

/// A [`Transfer`] as a mathematical value.
pub enum TransferView {
    ControlOut { request: u8, value: u16, index: u16, data: Seq<u8> },
    ControlIn { request: u8, value: u16, index: u16, length: u16 },
    BulkOut { data: Seq<u8> },
    BulkIn { len: usize },
}

impl View for Transfer {
    type V = TransferView;

    open spec fn view(&self) -> TransferView {
        match self {
            Transfer::ControlOut { request, value, index, data } => TransferView::ControlOut {
                request: *request,
                value: *value,
                index: *index,
                data: data@,
            },
            Transfer::ControlIn { request, value, index, length } => TransferView::ControlIn {
                request: *request,
                value: *value,
                index: *index,
                length: *length,
            },
            Transfer::BulkOut { data } => TransferView::BulkOut { data: data@ },
            Transfer::BulkIn { len } => TransferView::BulkIn { len: *len },
        }
    }
}

/// The views of a sequence of transfers.
pub open spec fn transfers_view(ts: Seq<Transfer>) -> Seq<TransferView> {
    ts.map_values(|t: Transfer| t@)
}

/// What an operation does on the wire: the transfers to run in order, and
/// what the operation returns once all of them have succeeded.  A transfer
/// that fails ends the operation with its error.
pub struct Plan {
    pub transfers: Vec<Transfer>,
    pub outcome: Result<(), AmlError>,
}

impl Plan {
    /// The transfers of the plan as mathematical values.
    pub open spec fn spec_transfers(&self) -> Seq<TransferView> {
        transfers_view(self.transfers@)
    }
}

/// The bytes that a transfer carries from the host to the device.
pub open spec fn out_bytes(t: TransferView) -> Seq<u8> {
    match t {
        TransferView::ControlOut { data, .. } => data,
        TransferView::BulkOut { data } => data,
        _ => Seq::empty(),
    }
}

/// All bytes that a sequence of transfers carries from host to device, in order.
pub open spec fn sent_bytes(ts: Seq<TransferView>) -> Seq<u8>
    decreases ts.len(),
{
    if ts.len() == 0 {
        Seq::empty()
    } else {
        sent_bytes(ts.drop_last()) + out_bytes(ts.last())
    }
}

/// The bytes that a sequence of transfers carries over the bulk-OUT endpoint.
pub open spec fn bulk_sent_bytes(ts: Seq<TransferView>) -> Seq<u8>
    decreases ts.len(),
{
    if ts.len() == 0 {
        Seq::empty()
    } else {
        bulk_sent_bytes(ts.drop_last()) + match ts.last() {
            TransferView::BulkOut { data } => data,
            _ => Seq::empty(),
        }
    }
}

/// The most bytes that a transfer asks the device for.
pub open spec fn in_len(t: TransferView) -> nat {
    match t {
        TransferView::ControlIn { length, .. } => length as nat,
        TransferView::BulkIn { len } => len as nat,
        _ => 0,
    }
}

/// The most bytes that a sequence of transfers asks the device for.
pub open spec fn requested_bytes(ts: Seq<TransferView>) -> nat
    decreases ts.len(),
{
    if ts.len() == 0 {
        0
    } else {
        requested_bytes(ts.drop_last()) + in_len(ts.last())
    }
}

/// The bytes asked for by two transfer sequences one after the other.
pub proof fn lemma_requested_bytes_concat(x: Seq<TransferView>, y: Seq<TransferView>)
    ensures
        requested_bytes(x + y) == requested_bytes(x) + requested_bytes(y),
    decreases y.len(),
{
    if y.len() == 0 {
        assert(x + y =~= x);
    } else {
        assert((x + y).drop_last() =~= x + y.drop_last());
        assert((x + y).last() == y.last());
        lemma_requested_bytes_concat(x, y.drop_last());
    }
}

/// The 32-bit address that a control transfer names by its `value` (high
/// half) and `index` (low half).
pub open spec fn control_address(t: TransferView) -> int {
    match t {
        TransferView::ControlOut { value, index, .. } => value * 0x1_0000 + index,
        TransferView::ControlIn { value, index, .. } => value * 0x1_0000 + index,
        _ => 0,
    }
}

/// The 32-bit address that a request announces in the first four bytes of
/// its data, little-endian.
pub open spec fn announced_address(t: TransferView) -> int {
    le_value(out_bytes(t).subrange(0, 4)) as int
}

/// An address split into `value` and `index` names the address again.
pub proof fn lemma_address_halves(a: u32)
    ensures
        addr_hi(a) * 0x1_0000 + addr_lo(a) == a,
{
}

/// High half of a 32-bit address, sent as the `value` of a request.
pub open spec fn addr_hi(address: u32) -> u16 {
    (address / 0x1_0000) as u16
}

/// Low half of a 32-bit address, sent as the `index` of a request.
pub open spec fn addr_lo(address: u32) -> u16 {
    (address % 0x1_0000) as u16
}

/// High half of `address`.
pub fn address_high(address: u32) -> (r: u16)
    ensures
        r == addr_hi(address),
{
    (address / 0x1_0000) as u16
}

/// Low half of `address`.
pub fn address_low(address: u32) -> (r: u16)
    ensures
        r == addr_lo(address),
{
    (address % 0x1_0000) as u16
}

/// `x` cut to its low 32 bits, as `x as u32` does.
pub fn low_u32(x: usize) -> (r: u32)
    ensures
        r == (x as int) % 0x1_0000_0000,
{
    let r = x as u32;
    assert(r == (x as u64) % 0x1_0000_0000) by (bit_vector)
        requires
            r == x as u32,
    ;
    r
}

/// `x` cut to its low 16 bits, as `x as u16` does.
pub fn low_u16(x: usize) -> (r: u16)
    ensures
        r == (x as int) % 0x1_0000,
{
    let r = x as u16;
    assert(r == (x as u64) % 0x1_0000) by (bit_vector)
        requires
            r == x as u16,
    ;
    r
}

/// A copy of `data[start..end]`.
pub fn copy_range(data: &[u8], start: usize, end: usize) -> (v: Vec<u8>)
    requires
        start <= end <= data@.len(),
    ensures
        v@ == data@.subrange(start as int, end as int),
{
    vstd::slice::slice_to_vec(&data[start..end])
}

/// Size of the buffer of a bulk read of at most `len` bytes from an
/// endpoint with packets of `max_packet_size` bytes: a whole nonzero number
/// of packets, as the USB stack wants it.
pub fn bulk_in_buffer_len(len: usize, max_packet_size: usize) -> (n: usize)
    requires
        len > 0 ==> max_packet_size > 0 && (len + max_packet_size - 1) / (max_packet_size as int)
            * max_packet_size <= usize::MAX,
    ensures
        len == 0 ==> n == max_packet_size,
        len > 0 ==> n == (len + max_packet_size - 1) / (max_packet_size as int) * max_packet_size,
{
    if len == 0 {
        max_packet_size
    } else {
        proof {
            if len % max_packet_size != 0 {
                assert(max_packet_size >= 2);
                vstd::arithmetic::div_mod::lemma_div_is_ordered_by_denominator(
                    len as int,
                    2,
                    max_packet_size as int,
                );
            }
        }
        let q = len / max_packet_size + if len % max_packet_size != 0 {
            1
        } else {
            0
        };
        assert(q == (len + max_packet_size - 1) / (max_packet_size as int)) by {
            let m = max_packet_size as int;
            let a = len as int;
            vstd::arithmetic::div_mod::lemma_fundamental_div_mod(a, m);
            assert((a / m + 1) * m == m * (a / m) + m) by (nonlinear_arith);
            assert((a / m) * m == m * (a / m)) by (nonlinear_arith);
            if len % max_packet_size != 0 {
                vstd::arithmetic::div_mod::lemma_fundamental_div_mod_converse(
                    len + m - 1,
                    m,
                    len as int / m + 1,
                    len as int % m - 1,
                );
            } else {
                vstd::arithmetic::div_mod::lemma_fundamental_div_mod_converse(len + m - 1, m, len as int / m, m - 1);
            }
        }
        q * max_packet_size
    }
}

/// What a bulk read of at most `len` bytes gives back from the `received`
/// buffer: at most its first `len` bytes.
pub fn bulk_in_received(received: Vec<u8>, len: usize) -> (data: Vec<u8>)
    ensures
        data@ == if len <= received@.len() {
            received@.take(len as int)
        } else {
            received@
        },
{
    let mut data = received;
    data.truncate(len);
    data
}

/// The answers of the reading transfers of an operation, joined in order.
pub open spec fn joined(responses: Seq<Seq<u8>>) -> Seq<u8> {
    responses.flatten_alt()
}

/// The answers as mathematical values.
pub open spec fn responses_view(responses: Seq<Vec<u8>>) -> Seq<Seq<u8>> {
    responses.map_values(|r: Vec<u8>| r@)
}

/// Joins the answers of the reading transfers of a read, in order: what a
/// chunked read gives back.
pub fn join_responses(responses: &Vec<Vec<u8>>) -> (data: Vec<u8>)
    ensures
        data@ == joined(responses_view(responses@)),
{
    let mut data: Vec<u8> = Vec::new();
    let mut i: usize = 0;
    while i < responses.len()
        invariant
            i <= responses@.len(),
            data@ == joined(responses_view(responses@).take(i as int)),
        decreases responses@.len() - i,
    {
        data.extend_from_slice(responses[i].as_slice());
        assert(responses_view(responses@).take(i + 1).drop_last() =~= responses_view(responses@).take(
            i as int,
        ));
        assert(data@ =~= joined(responses_view(responses@).take(i as int)) + responses@[i as int]@);
        i = i + 1;
    }
    assert(responses_view(responses@).take(responses@.len() as int) =~= responses_view(responses@));
    data
}

} // verus!
