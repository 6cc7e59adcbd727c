use vstd::prelude::*;

use super::error::AmlError;
use super::transfer::{
    addr_hi, addr_lo, address_high, address_low, control_address, copy_range, in_len,
    lemma_address_halves, low_u32, out_bytes, requested_bytes, sent_bytes, transfers_view, Transfer,
    TransferView,
};
use super::{REQ_READ_MEM, REQ_WRITE_MEM, SIMPLE_MEMORY_MAX};

verus! {

/// The smaller of `a` and `b`.
pub open spec fn min(a: int, b: int) -> int {
    if a <= b {
        a
    } else {
        b
    }
}

/// `address` plus the low 32 bits of `offset`: where a chunk at `offset`
/// of a transfer at `address` goes.
pub open spec fn offset_address(address: u32, offset: int) -> int {
    address + offset % 0x1_0000_0000
}

/// The control transfer that writes `data` at `address`.
pub open spec fn write_simple_view(address: u32, data: Seq<u8>) -> TransferView {
    TransferView::ControlOut {
        request: REQ_WRITE_MEM,
        value: addr_hi(address),
        index: addr_lo(address),
        data,
    }
}

/// The control transfer that reads `length` bytes at `address`.
pub open spec fn read_simple_view(address: u32, length: nat) -> TransferView {
    TransferView::ControlIn {
        request: REQ_READ_MEM,
        value: addr_hi(address),
        index: addr_lo(address),
        length: length as u16,
    }
}

/// Writes at most 64 bytes to memory at `address` with one control transfer.
pub fn write_simple_memory(address: u32, data: &[u8]) -> (r: Result<Transfer, AmlError>)
    ensures
        data@.len() > 64 <==> r is Err,
        r matches Err(e) ==> e == AmlError::DataTooLarge(data@.len() as usize),
        r matches Ok(t) ==> t@ == write_simple_view(address, data@),
{
    if data.len() > SIMPLE_MEMORY_MAX {
        return Err(AmlError::DataTooLarge(data.len()));
    }
    Ok(
        Transfer::ControlOut {
            request: REQ_WRITE_MEM,
            value: address_high(address),
            index: address_low(address),
            data: vstd::slice::slice_to_vec(data),
        },
    )
}

/// Reads at most 64 bytes of memory at `address` with one control
/// transfer; a read of nothing needs no transfer and gives back nothing.
pub fn read_simple_memory(address: u32, length: usize) -> (r: Result<Option<Transfer>, AmlError>)
    ensures
        length > 64 <==> r is Err,
        r matches Err(e) ==> e == AmlError::DataTooLarge(length),
        r matches Ok(t) ==> (length == 0 <==> t is None),
        r matches Ok(Some(t)) ==> t@ == read_simple_view(address, length as nat),
{
    if length == 0 {
        return Ok(None);
    }
    if length > SIMPLE_MEMORY_MAX {
        return Err(AmlError::DataTooLarge(length));
    }
    Ok(
        Some(
            Transfer::ControlIn {
                request: REQ_READ_MEM,
                value: address_high(address),
                index: address_low(address),
                length: length as u16,
            },
        ),
    )
}

/// Number of 64-byte chunks of a memory read of `len` bytes.
pub open spec fn read_memory_count(len: nat) -> nat {
    ((len + 63) / 64) as nat
}

/// The arguments of a memory read on which its arithmetic stays free of
/// overflow: the length fits in 32 bits and so does every chunk address.
pub open spec fn read_memory_fits(address: u32, length: nat) -> bool {
    &&& length <= u32::MAX
    &&& forall|i: int| 0 <= i < read_memory_count(length) ==> address + #[trigger] (64 * i) <= u32::MAX
}

/// The transfers of a memory read: chunk `i` reads up to 64 bytes at
/// `address + 64 * i`.
pub open spec fn read_memory_view(address: u32, length: nat) -> Seq<TransferView> {
    Seq::new(
        read_memory_count(length),
        |i: int| read_simple_view((address + 64 * i) as u32, min(64, length - 64 * i) as nat),
    )
}

/// Whether a memory read of `length` bytes at `address` stays within the
/// 32-bit address space, as [`read_memory`] needs.
pub fn read_memory_args_fit(address: u32, length: usize) -> (r: bool)
    ensures
        r == read_memory_fits(address, length as nat),
{
    if length > 0xffff_ffff {
        return false;
    }
    if length == 0 {
        return true;
    }
    let last = (length - 1) / 64 * 64;
    let fits = last <= (0xffff_ffff - address) as usize;
    proof {
        let n = read_memory_count(length as nat);
        assert(n == (length - 1) / 64 + 1);
        if fits {
            assert forall|i: int| 0 <= i < n implies address + #[trigger] (64 * i) <= u32::MAX by {
                assert(64 * i <= last);
            }
        } else {
            assert(address + 64 * (n - 1) > u32::MAX);
        }
    }
    fits
}

/// Reads `length` bytes of memory at `address` in chunks of 64 bytes; what
/// it gives back is the answers of all chunks, in order.
pub fn read_memory(address: u32, length: usize) -> (ts: Vec<Transfer>)
    requires
        read_memory_fits(address, length as nat),
    ensures
        transfers_view(ts@) == read_memory_view(address, length as nat),
{
    let mut transfers: Vec<Transfer> = Vec::new();
    let mut remaining = length;
    let mut offset: u32 = 0;
    let ghost view = read_memory_view(address, length as nat);
    while remaining > 0
        invariant
            read_memory_fits(address, length as nat),
            view == read_memory_view(address, length as nat),
            remaining > 0 ==> offset % 64 == 0,
            offset + remaining == length,
            transfers@.len() == (offset + 63) / 64,
            remaining > 0 ==> offset / 64 < read_memory_count(length as nat),
            forall|i: int| 0 <= i < transfers@.len() ==> #[trigger] transfers@[i]@ == view[i],
        decreases remaining,
    {
        let chunk = if remaining < 64 {
            remaining
        } else {
            64
        };
        let ghost i = offset / 64;
        assert(address + 64 * i <= u32::MAX);
        let t = read_simple_memory(address + offset, chunk);
        match t {
            Ok(Some(t)) => {
                transfers.push(t);
            },
            _ => {
                assert(false);
            },
        }
        remaining = remaining - chunk;
        offset = offset + chunk as u32;
    }
    assert(transfers_view(transfers@) =~= view);
    transfers
}

/// Number of 64-byte chunks of a memory write of `len` bytes: one at least,
/// as an empty write still sends one empty transfer.
pub open spec fn write_memory_count(len: nat) -> nat {
    if len == 0 {
        1
    } else {
        ((len + 63) / 64) as nat
    }
}

/// Every chunk address of a memory write of `len` bytes at `address` fits
/// in 32 bits.
pub open spec fn write_memory_fits(address: u32, len: nat) -> bool {
    forall|i: int| 0 <= i < write_memory_count(len) ==> #[trigger] offset_address(address, 64 * i)
        <= u32::MAX
}

/// Bytes of chunk `i` of a chunked transfer of `data` in chunks of `size`.
pub open spec fn chunk(data: Seq<u8>, size: int, i: int) -> Seq<u8> {
    data.subrange(size * i, min(size * i + size, data.len() as int))
}

/// The transfers of a memory write: chunk `i` holds bytes `64 * i` up to
/// `64 * i + 64` and goes to `address + 64 * i`.
pub open spec fn write_memory_view(address: u32, data: Seq<u8>) -> Seq<TransferView> {
    Seq::new(
        write_memory_count(data.len()),
        |i: int| write_simple_view(offset_address(address, 64 * i) as u32, chunk(data, 64, i)),
    )
}

/// Whether every chunk address of a memory write of `len` bytes at
/// `address` fits in 32 bits, as [`write_memory`] needs.
pub fn write_memory_args_fit(address: u32, len: usize) -> (r: bool)
    ensures
        r == write_memory_fits(address, len as nat),
{
    let mut offset: usize = 0;
    let ghost n = write_memory_count(len as nat);
    let mut i: usize = 0;
    loop
        invariant
            offset == 64 * i,
            i < n,
            forall|j: int| 0 <= j < i ==> #[trigger] offset_address(address, 64 * j) <= u32::MAX,
            n == write_memory_count(len as nat),
        decreases n - i,
    {
        let wrapped = low_u32(offset);
        if wrapped > 0xffff_ffff - address {
            assert(offset_address(address, 64 * i) > u32::MAX);
            return false;
        }
        if len - offset <= 64 {
            assert(i + 1 == n);
            return true;
        }
        offset = offset + 64;
        i = i + 1;
    }
}

/// Writes `data` to memory at `address` in chunks of 64 bytes.
pub fn write_memory(address: u32, data: &[u8]) -> (ts: Vec<Transfer>)
    requires
        write_memory_fits(address, data@.len()),
    ensures
        transfers_view(ts@) == write_memory_view(address, data@),
{
    let length = data.len();
    let mut transfers: Vec<Transfer> = Vec::new();
    let mut offset: usize = 0;
    let ghost count = write_memory_count(length as nat);
    loop
        invariant_except_break
            transfers@.len() == offset / 64,
            offset / 64 < count,
        invariant
            length == data@.len(),
            write_memory_fits(address, length as nat),
            count == write_memory_count(length as nat),
            offset % 64 == 0,
            offset == 0 || offset < length,
            forall|i: int|
                0 <= i < transfers@.len() ==> #[trigger] transfers@[i]@ == write_memory_view(
                    address,
                    data@,
                )[i],
        ensures
            transfers@.len() == count,
            forall|i: int|
                0 <= i < transfers@.len() ==> #[trigger] transfers@[i]@ == write_memory_view(
                    address,
                    data@,
                )[i],
        decreases length - offset,
    {
        let end = if length - offset > 64 {
            offset + 64
        } else {
            length
        };
        let i: usize = offset / 64;
        assert(offset == 64 * i);
        assert(offset_address(address, 64 * i) <= u32::MAX);
        let chunk_address = address + low_u32(offset);
        let t = Transfer::ControlOut {
            request: REQ_WRITE_MEM,
            value: address_high(chunk_address),
            index: address_low(chunk_address),
            data: copy_range(data, offset, end),
        };
        transfers.push(t);
        if end >= length {
            assert(count == i + 1);
            break;
        }
        offset = offset + 64;
    }
    assert(transfers_view(transfers@) =~= write_memory_view(address, data@));
    transfers
}

/// A memory write sends exactly the data, in order, chunk `i` holding the
/// bytes from offset `64 * i` and going to `address + 64 * i`.
pub proof fn lemma_write_memory_sends_data(address: u32, data: Seq<u8>)
    ensures
        sent_bytes(write_memory_view(address, data)) == data,
        forall|i: int|
            0 <= i < write_memory_count(data.len()) ==> #[trigger] chunk(data, 64, i).len() <= 64,
        forall|i: int|
            0 <= i < write_memory_count(data.len()) ==> #[trigger] write_memory_view(address, data)[i]
                == write_simple_view(offset_address(address, 64 * i) as u32, chunk(data, 64, i)),
{
    let view = write_memory_view(address, data);
    let n = write_memory_count(data.len());
    assert forall|k: int| 0 <= k <= n implies #[trigger] sent_bytes(view.take(k)) == data.take(
        min(64 * k, data.len() as int),
    ) by {
        lemma_write_memory_prefix(address, data, k);
    }
    assert(view.take(n as int) =~= view);
    assert(data.take(data.len() as int) =~= data);
}

proof fn lemma_write_memory_prefix(address: u32, data: Seq<u8>, k: int)
    requires
        0 <= k <= write_memory_count(data.len()),
    ensures
        sent_bytes(write_memory_view(address, data).take(k)) == data.take(
            min(64 * k, data.len() as int),
        ),
    decreases k,
{
    let view = write_memory_view(address, data);
    if k == 0 {
        assert(data.take(0) =~= Seq::<u8>::empty());
    } else {
        lemma_write_memory_prefix(address, data, k - 1);
        assert(view.take(k).drop_last() =~= view.take(k - 1));
        assert(data.take(min(64 * k, data.len() as int)) =~= data.take(
            min(64 * (k - 1), data.len() as int),
        ) + chunk(data, 64, k - 1));
    }
}

/// A memory read asks for exactly `length` bytes, at most 64 per chunk.
pub proof fn lemma_read_memory_asks_length(address: u32, length: nat)
    requires
        length <= u32::MAX,
    ensures
        requested_bytes(read_memory_view(address, length)) == length,
{
    let n = read_memory_count(length);
    assert(64 * n >= length && 64 * (n - 1) < length || n == 0);
    lemma_read_memory_prefix(address, length, n);
    assert(read_memory_view(address, length).take(n as int) =~= read_memory_view(address, length));
}

proof fn lemma_read_memory_prefix(address: u32, length: nat, k: nat)
    requires
        length <= u32::MAX,
        k <= read_memory_count(length),
    ensures
        requested_bytes(read_memory_view(address, length).take(k as int)) == min((64 * k) as int, length as int),
    decreases k,
{
    let view = read_memory_view(address, length);
    if k == 0 {
        assert(view.take(0) =~= Seq::<TransferView>::empty());
    } else {
        lemma_read_memory_prefix(address, length, (k - 1) as nat);
        assert(view.take(k as int).drop_last() =~= view.take(k - 1));
        assert(view.take(k as int).last() == view[k - 1]);
    }
}

/// Where the chunks of a memory read go: each chunk names, by its `value`
/// and `index`, the address that follows the bytes asked for by the chunks
/// before it, and asks for 1 to 64 bytes; together they ask for `length`
/// bytes.  So byte `i` of the joined answer is the byte at `address + i`.
pub proof fn lemma_read_memory_addresses(address: u32, length: nat)
    requires
        read_memory_fits(address, length),
    ensures
        ({
            let ts = read_memory_view(address, length);
            &&& forall|i: int|
                0 <= i < ts.len() ==> control_address(#[trigger] ts[i]) == address + requested_bytes(
                    ts.take(i),
                ) && 0 < in_len(ts[i]) <= 64
            &&& requested_bytes(ts) == length
        }),
{
    let ts = read_memory_view(address, length);
    lemma_read_memory_asks_length(address, length);
    assert forall|i: int| 0 <= i < ts.len() implies control_address(#[trigger] ts[i]) == address
        + requested_bytes(ts.take(i)) && 0 < in_len(ts[i]) <= 64 by {
        lemma_read_memory_prefix(address, length, i as nat);
        assert(64 * i < length);
        assert(address + 64 * i <= u32::MAX);
        lemma_address_halves((address + 64 * i) as u32);
    }
}

/// Where the chunks of a memory write go: each chunk names, by its `value`
/// and `index`, the address that follows the bytes sent by the chunks
/// before it (within the 32-bit address space), and carries at most 64 bytes.
pub proof fn lemma_write_memory_addresses(address: u32, data: Seq<u8>)
    requires
        write_memory_fits(address, data.len()),
    ensures
        ({
            let ts = write_memory_view(address, data);
            forall|i: int|
                0 <= i < ts.len() ==> control_address(#[trigger] ts[i]) == (address + sent_bytes(
                    ts.take(i),
                ).len()) % 0x1_0000_0000 && out_bytes(ts[i]).len() <= 64
        }),
{
    let ts = write_memory_view(address, data);
    assert forall|i: int| 0 <= i < ts.len() implies control_address(#[trigger] ts[i]) == (address
        + sent_bytes(ts.take(i)).len()) % 0x1_0000_0000 && out_bytes(ts[i]).len() <= 64 by {
        lemma_write_memory_prefix(address, data, i);
        assert(64 * i < data.len() || i == 0);
        assert(offset_address(address, 64 * i) <= u32::MAX);
        lemma_address_halves(offset_address(address, 64 * i) as u32);
        vstd::arithmetic::div_mod::lemma_add_mod_noop(address as int, 64 * i, 0x1_0000_0000);
        vstd::arithmetic::div_mod::lemma_small_mod(address as nat, 0x1_0000_0000);
        vstd::arithmetic::div_mod::lemma_small_mod(
            offset_address(address, 64 * i) as nat,
            0x1_0000_0000,
        );
    }
}

} // verus!
