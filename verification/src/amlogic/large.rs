use vstd::prelude::*;

use super::encoding::{le_bytes_u32, lemma_le_bytes_u32_roundtrip, pack_u32x4};
use super::error::AmlError;
use super::memory::{min, offset_address};
use super::transfer::{
    announced_address, bulk_sent_bytes, copy_range, lemma_requested_bytes_concat, low_u16, low_u32,
    requested_bytes, transfers_view, Plan, Transfer, TransferView,
};
use super::{MAX_LARGE_BLOCK_COUNT, REQ_RD_LARGE_MEM, REQ_WR_LARGE_MEM};

verus! {

/// `x / d` rounded up.
pub open spec fn ceil_div(x: nat, d: nat) -> nat {
    ((x + d - 1) / d as int) as nat
}

/// `x / d` rounded up is the quotient, plus one when there is a remainder.
pub proof fn lemma_ceil_div(x: nat, d: nat)
    requires
        d > 0,
    ensures
        ceil_div(x, d) == x / d + if x % d > 0 {
            1int
        } else {
            0int
        },
{
    let a = x as int;
    let bl = d as int;
    vstd::arithmetic::div_mod::lemma_fundamental_div_mod(a, bl);
    assert((a / bl + 1) * bl == bl * (a / bl) + bl) by (nonlinear_arith);
    assert((a / bl) * bl == bl * (a / bl)) by (nonlinear_arith);
    if a % bl > 0 {
        vstd::arithmetic::div_mod::lemma_fundamental_div_mod_converse(a + bl - 1, bl, a / bl + 1, a % bl - 1);
    } else {
        vstd::arithmetic::div_mod::lemma_fundamental_div_mod_converse(a + bl - 1, bl, a / bl, bl - 1);
    }
}

/// Bytes of one large memory transfer: 65535 blocks.
pub open spec fn large_span(b: nat) -> nat {
    (MAX_LARGE_BLOCK_COUNT * b) as nat
}

/// Number of large memory transfers for `len` bytes in blocks of `b`.
pub open spec fn large_transfer_count(len: nat, b: nat) -> nat {
    ceil_div(ceil_div(len, b), MAX_LARGE_BLOCK_COUNT as nat)
}

/// Length of piece `k` of `len` bytes cut into pieces of one large span.
pub open spec fn large_piece_len(len: nat, b: nat, k: int) -> int {
    min(k * large_span(b) + large_span(b), len as int) - k * large_span(b)
}

/// Address of piece `k`.
pub open spec fn large_piece_address(address: u32, b: nat, k: int) -> u32 {
    offset_address(address, k * large_span(b)) as u32
}

/// `piece` followed by zero bytes up to a whole number of blocks of `b`.
pub open spec fn zero_pad(piece: Seq<u8>, b: nat) -> Seq<u8> {
    if piece.len() % b == 0 {
        piece
    } else {
        piece + Seq::new((b - piece.len() % b) as nat, |i: int| 0u8)
    }
}

/// The control request that announces a large transfer of `length` bytes
/// at `address` in blocks of `b`.
pub open spec fn large_header(request: u8, address: u32, length: nat, b: nat) -> TransferView {
    TransferView::ControlOut {
        request,
        value: (b % 0x1_0000) as u16,
        index: (ceil_div(length, b) % 0x1_0000) as u16,
        data: le_bytes_u32(address) + le_bytes_u32((length % 0x1_0000_0000) as u32)
            + le_bytes_u32(0) + le_bytes_u32(0),
    }
}

/// The bulk writes of the first `n` blocks of `b` bytes of `payload`.
pub open spec fn bulk_blocks(payload: Seq<u8>, b: nat, n: nat) -> Seq<TransferView> {
    Seq::new(n, |j: int| TransferView::BulkOut { data: payload.subrange(j * b, j * b + b) })
}

/// The transfers that write `payload`, a whole number of blocks of `b`, at `address`.
pub open spec fn write_large_piece_view(address: u32, payload: Seq<u8>, b: nat) -> Seq<TransferView> {
    seq![large_header(REQ_WR_LARGE_MEM, address, payload.len(), b)] + bulk_blocks(
        payload,
        b,
        payload.len() / b,
    )
}

/// Piece `k` of `data`.
pub open spec fn large_piece(data: Seq<u8>, b: nat, k: int) -> Seq<u8> {
    data.subrange(k * large_span(b), k * large_span(b) + large_piece_len(data.len(), b, k))
}

/// The transfers of piece `k` of a large write: none for a piece that is
/// not a whole number of blocks unless it is padded with zeros.
pub open spec fn write_large_step(address: u32, data: Seq<u8>, b: nat, append_zeros: bool, k: int) -> Seq<
    TransferView,
> {
    let piece = large_piece(data, b, k);
    if append_zeros || piece.len() % b == 0 {
        write_large_piece_view(large_piece_address(address, b, k), zero_pad(piece, b), b)
    } else {
        Seq::empty()
    }
}

/// The transfers of each piece of a large memory write.
pub open spec fn write_large_steps(address: u32, data: Seq<u8>, b: nat, append_zeros: bool) -> Seq<
    Seq<TransferView>,
> {
    Seq::new(
        large_transfer_count(data.len(), b),
        |k: int| write_large_step(address, data, b, append_zeros, k),
    )
}

/// All transfers of a large memory write.
pub open spec fn write_large_memory_view(
    address: u32,
    data: Seq<u8>,
    b: nat,
    append_zeros: bool,
) -> Seq<TransferView> {
    write_large_steps(address, data, b, append_zeros).flatten_alt()
}

/// The arguments of a large memory access on which its arithmetic stays
/// free of overflow: a nonzero block length, a block count that fits, and
/// piece addresses that fit in 32 bits.
pub open spec fn large_access_fits(address: u32, len: nat, b: nat) -> bool {
    &&& b > 0
    &&& len + b - 1 <= usize::MAX
    &&& len > 0 ==> large_transfer_count(len, b) * large_span(b) <= usize::MAX
    &&& forall|k: int|
        0 <= k < large_transfer_count(len, b) ==> #[trigger] offset_address(
            address,
            k * large_span(b),
        ) <= u32::MAX
}

proof fn lemma_piece_bounds(len: nat, b: nat, k: int)
    requires
        b > 0,
        0 <= k < large_transfer_count(len, b),
    ensures
        k * large_span(b) < len,
        (k + 1) * large_span(b) <= large_transfer_count(len, b) * large_span(b),
        k * large_span(b) + large_span(b) == (k + 1) * large_span(b),
        k + 1 < large_transfer_count(len, b) ==> (k + 1) * large_span(b) < len,
        k + 1 == large_transfer_count(len, b) ==> len <= (k + 1) * large_span(b),
        (k * large_span(b)) % (b as int) == 0,
        large_span(b) % b == 0,
{
    let s = large_span(b) as int;
    let bc = ceil_div(len, b) as int;
    let t = large_transfer_count(len, b) as int;
    let c = MAX_LARGE_BLOCK_COUNT as int;
    assert(bc * b < len + b) by (nonlinear_arith)
        requires
            bc == (len + b - 1) / (b as int),
            b > 0,
    ;
    assert(bc * b >= len) by (nonlinear_arith)
        requires
            bc == (len + b - 1) / (b as int),
            b > 0,
    ;
    assert(t * c >= bc && (t - 1) * c < bc) by (nonlinear_arith)
        requires
            t == (bc + c - 1) / c,
            c > 0,
            bc >= 0,
    ;
    assert(k * s <= (t - 1) * s) by (nonlinear_arith)
        requires
            k <= t - 1,
            s >= 0,
    ;
    assert((t - 1) * s == ((t - 1) * c) * b) by (nonlinear_arith)
        requires
            s == c * b,
    ;
    assert(((t - 1) * c) * b <= (bc - 1) * b) by (nonlinear_arith)
        requires
            (t - 1) * c <= bc - 1,
            b > 0,
    ;
    assert((k + 1) * s <= t * s) by (nonlinear_arith)
        requires
            k + 1 <= t,
            s >= 0,
    ;
    assert(k * s + s == (k + 1) * s) by (nonlinear_arith);
    assert((bc - 1) * b == bc * b - b) by (nonlinear_arith);
    assert(t * s == (t * c) * b) by (nonlinear_arith)
        requires
            s == c * b,
    ;
    assert((t * c) * b >= bc * b) by (nonlinear_arith)
        requires
            t * c >= bc,
            b > 0,
    ;
    assert((k * s) % (b as int) == 0) by (nonlinear_arith)
        requires
            s == c * b,
            b > 0,
            k >= 0,
    {
        assert(k * s == (k * c) * b);
        vstd::arithmetic::div_mod::lemma_mod_multiples_basic(k * c, b as int);
    }
    assert(s % (b as int) == 0) by (nonlinear_arith)
        requires
            s == c * b,
            b > 0,
    {
        vstd::arithmetic::div_mod::lemma_mod_multiples_basic(c, b as int);
    }
    if k + 1 < t {
        assert((k + 1) * s <= (t - 1) * s) by (nonlinear_arith)
            requires
                k + 1 <= t - 1,
                s >= 0,
        ;
    }
}

proof fn lemma_le_div(x: int, d: int, m: int)
    requires
        d > 0,
        x >= 0,
        m >= 0,
    ensures
        x <= m / d <==> x * d <= m,
{
    vstd::arithmetic::div_mod::lemma_fundamental_div_mod(m, d);
    if x <= m / d {
        assert(x * d <= (m / d) * d) by (nonlinear_arith)
            requires
                x <= m / d,
                d > 0,
        ;
        assert((m / d) * d <= m) by (nonlinear_arith)
            requires
                m == d * (m / d) + m % d,
                m % d >= 0,
        ;
    } else {
        assert(x * d >= (m / d + 1) * d) by (nonlinear_arith)
            requires
                x >= m / d + 1,
                d > 0,
        ;
        assert((m / d + 1) * d > m) by (nonlinear_arith)
            requires
                m == d * (m / d) + m % d,
                m % d < d,
        ;
    }
}

/// Whether a large memory access of `len` bytes at `address` in blocks of
/// `block_length` computes without overflow, as [`write_large_memory`] and
/// [`read_large_memory`] need.
pub fn large_access_args_fit(address: u32, len: usize, block_length: usize) -> (r: bool)
    ensures
        r == large_access_fits(address, len as nat, block_length as nat),
{
    if block_length == 0 {
        return false;
    }
    if len > usize::MAX - (block_length - 1) {
        return false;
    }
    let ghost b = block_length as nat;
    let count = large_count(len, block_length);
    proof {
        lemma_count_zero(len as nat, b);
    }
    if len == 0 {
        return true;
    }
    proof {
        lemma_le_div(block_length as int, MAX_LARGE_BLOCK_COUNT as int, usize::MAX as int);
        assert(count >= 1);
        assert(large_span(b) <= count * large_span(b)) by (nonlinear_arith)
            requires
                count >= 1,
        ;
    }
    if block_length > usize::MAX / MAX_LARGE_BLOCK_COUNT {
        assert(block_length * MAX_LARGE_BLOCK_COUNT > usize::MAX);
        return false;
    }
    let span = MAX_LARGE_BLOCK_COUNT * block_length;
    proof {
        lemma_le_div(count as int, span as int, usize::MAX as int);
    }
    if count > usize::MAX / span {
        return false;
    }
    let mut k: usize = 0;
    let mut offset: usize = 0;
    while k < count
        invariant
            b == block_length,
            b > 0,
            span == large_span(b),
            count == large_transfer_count(len as nat, b),
            count * span <= usize::MAX,
            k <= count,
            offset == k * span,
            forall|j: int| 0 <= j < k ==> #[trigger] offset_address(address, j * large_span(b)) <= u32::MAX,
        decreases count - k,
    {
        if low_u32(offset) > 0xffff_ffff - address {
            assert(offset_address(address, k * large_span(b)) > u32::MAX);
            return false;
        }
        assert(offset + span <= count * span) by (nonlinear_arith)
            requires
                offset == k * span,
                k < count,
        ;
        offset = offset + span;
        k = k + 1;
        assert(offset == k * span) by (nonlinear_arith)
            requires
                offset == (k - 1) * span + span,
        ;
    }
    true
}

/// A copy of `piece` followed by zero bytes up to a whole number of blocks.
fn zero_padded(piece: &[u8], block_length: usize) -> (v: Vec<u8>)
    requires
        block_length > 0,
        piece@.len() % (block_length as nat) != 0 ==> piece@.len() + block_length - piece@.len() % (
        block_length as nat) <= usize::MAX,
    ensures
        v@ == zero_pad(piece@, block_length as nat),
        v@.len() % (block_length as nat) == 0,
{
    let mut buf = vstd::slice::slice_to_vec(piece);
    let remainder = piece.len() % block_length;
    if remainder != 0 {
        buf.resize(piece.len() + (block_length - remainder), 0u8);
        assert(buf@ =~= zero_pad(piece@, block_length as nat));
        assert(buf@.len() % (block_length as nat) == 0) by {
            let pl = piece@.len() as int;
            let bl = block_length as int;
            vstd::arithmetic::div_mod::lemma_fundamental_div_mod(pl, bl);
            vstd::arithmetic::div_mod::lemma_mod_multiples_basic(pl / bl + 1, bl);
            assert(buf@.len() == (pl / bl + 1) * bl) by (nonlinear_arith)
                requires
                    buf@.len() == pl + bl - pl % bl,
                    pl == bl * (pl / bl) + pl % bl,
            ;
        }
    }
    buf
}

/// Appends the transfers that write `payload`, a whole number of blocks,
/// at `address`: the announcing control request, then one bulk write per block.
fn push_large_write(
    transfers: &mut Vec<Transfer>,
    address: u32,
    payload: &[u8],
    block_length: usize,
)
    requires
        block_length > 0,
        payload@.len() % (block_length as nat) == 0,
    ensures
        transfers_view(final(transfers)@) == transfers_view(old(transfers)@)
            + write_large_piece_view(address, payload@, block_length as nat),
{
    let plen = payload.len();
    let block_count = plen / block_length;
    proof {
        vstd::arithmetic::div_mod::lemma_fundamental_div_mod(plen as int, block_length as int);
    }
    assert(plen == block_length * block_count);
    assert(ceil_div(plen as nat, block_length as nat) == block_count) by {
        vstd::arithmetic::div_mod::lemma_fundamental_div_mod_converse(
            plen + block_length - 1,
            block_length as int,
            block_count as int,
            block_length - 1,
        );
    }
    transfers.push(
        Transfer::ControlOut {
            request: REQ_WR_LARGE_MEM,
            value: low_u16(block_length),
            index: low_u16(block_count),
            data: pack_u32x4(address, low_u32(plen), 0, 0),
        },
    );
    let ghost start = transfers_view(old(transfers)@) + seq![large_header(REQ_WR_LARGE_MEM, address, plen as nat, block_length as nat)];
    assert(transfers_view(transfers@) =~= start);
    let ghost blocks = bulk_blocks(payload@, block_length as nat, block_count as nat);
    let mut offset: usize = 0;
    let mut j: usize = 0;
    while j < block_count
        invariant
            plen == payload@.len(),
            plen == block_length * block_count,
            block_length > 0,
            j <= block_count,
            offset == j * block_length,
            blocks.len() == block_count,
            forall|i: int| 0 <= i < block_count ==> #[trigger] blocks[i] == (TransferView::BulkOut {
                data: payload@.subrange(i * block_length, i * block_length + block_length),
            }),
            transfers_view(transfers@) == start + blocks.take(j as int),
        decreases block_count - j,
    {
        assert(offset + block_length <= plen) by (nonlinear_arith)
            requires
                offset == j * block_length,
                j < block_count,
                plen == block_length * block_count,
        ;
        let ghost old_ts = transfers@;
        transfers.push(Transfer::BulkOut { data: copy_range(payload, offset, offset + block_length) });
        assert(blocks.take(j + 1) =~= blocks.take(j as int).push(blocks[j as int]));
        assert(transfers_view(transfers@) =~= transfers_view(transfers@.drop_last()).push(transfers@.last()@));
        assert(transfers@.drop_last() == old_ts);
        assert(transfers_view(transfers@) =~= start + blocks.take(j + 1));
        offset = offset + block_length;
        j = j + 1;
        assert(offset == j * block_length) by (nonlinear_arith)
            requires
                offset == (j - 1) * block_length + block_length,
        ;
    }
    assert(blocks.take(block_count as int) =~= blocks);
    assert(transfers_view(transfers@) =~= transfers_view(old(transfers)@) + write_large_piece_view(
        address,
        payload@,
        block_length as nat,
    ));
}

/// One large memory write of at most 65535 blocks at `address`: pads the
/// piece with zeros or refuses it when it is not a whole number of blocks.
fn write_large_memory_inner(
    transfers: &mut Vec<Transfer>,
    address: u32,
    piece: &[u8],
    block_length: usize,
    append_zeros: bool,
) -> (r: Result<(), AmlError>)
    requires
        block_length > 0,
        piece@.len() % (block_length as nat) != 0 ==> piece@.len() + block_length - piece@.len() % (
        block_length as nat) <= usize::MAX,
    ensures
        r is Err <==> !append_zeros && piece@.len() % (block_length as nat) != 0,
        r is Err ==> r == Err::<(), AmlError>(
            AmlError::BlockAlignment { data_length: piece@.len() as usize, block_length },
        ) && final(transfers)@ == old(transfers)@,
        r is Ok ==> transfers_view(final(transfers)@) == transfers_view(old(transfers)@)
            + write_large_piece_view(address, zero_pad(piece@, block_length as nat), block_length as nat),
{
    if !append_zeros && piece.len() % block_length != 0 {
        return Err(AmlError::BlockAlignment { data_length: piece.len(), block_length });
    }
    let payload = zero_padded(piece, block_length);
    push_large_write(transfers, address, payload.as_slice(), block_length);
    Ok(())
}

/// Writes `data` at `address` with large bulk transfers of at most 65535
/// blocks each.  With `append_zeros` a data length that is not a whole
/// number of blocks is padded with zeros, else it is refused, once the
/// whole blocks before it have been written.
pub fn write_large_memory(address: u32, data: &[u8], block_length: usize, append_zeros: bool) -> (plan: Plan)
    requires
        large_access_fits(address, data@.len(), block_length as nat),
    ensures
        plan.spec_transfers() == write_large_memory_view(address, data@, block_length as nat, append_zeros),
        plan.outcome is Err <==> !append_zeros && data@.len() % (block_length as nat) != 0,
        plan.outcome is Err ==> plan.outcome == Err::<(), AmlError>(AmlError::BlockAlignment {
            data_length: large_piece_len(
                data@.len(),
                block_length as nat,
                large_transfer_count(data@.len(), block_length as nat) - 1,
            ) as usize,
            block_length,
        }),
{
    let len = data.len();
    let ghost b = block_length as nat;
    let ghost count = large_transfer_count(len as nat, b);
    let ghost steps = write_large_steps(address, data@, b, append_zeros);
    let transfer_count = large_count(len, block_length);
    proof {
        lemma_count_zero(len as nat, b);
        vstd::arithmetic::div_mod::lemma_small_mod(0, b);
    }
    let mut transfers: Vec<Transfer> = Vec::new();
    let mut offset: usize = 0;
    let mut k: usize = 0;
    assert(steps.take(0).flatten_alt() =~= Seq::<TransferView>::empty());
    while k < transfer_count
        invariant
            len == data@.len(),
            b == block_length,
            large_access_fits(address, len as nat, b),
            transfer_count == count,
            count == large_transfer_count(len as nat, b),
            steps == write_large_steps(address, data@, b, append_zeros),
            k <= count,
            count > 0 ==> len > 0,
            k < count ==> offset == k * large_span(b),
            transfers_view(transfers@) == steps.take(k as int).flatten_alt(),
            k == count && !append_zeros ==> len % block_length == 0,
        decreases count - k,
    {
        proof {
            lemma_step(len as nat, b, k as int);
        }
        let span = MAX_LARGE_BLOCK_COUNT * block_length;
        let write_length = if offset + span > len {
            len - offset
        } else {
            span
        };
        assert(offset_address(address, k * large_span(b)) <= u32::MAX);
        let piece_address = address + low_u32(offset);
        let piece = &data[offset..offset + write_length];
        let r = write_large_memory_inner(&mut transfers, piece_address, piece, block_length, append_zeros);
        assert(steps.take(k + 1).drop_last() =~= steps.take(k as int));
        assert(steps.take(k + 1).last() == steps[k as int]);
        if r.is_err() {
            assert(steps.take(k + 1) =~= steps);
            return Plan { transfers, outcome: r };
        }
        offset = offset + write_length;
        k = k + 1;
    }
    assert(steps.take(count as int) =~= steps);
    Plan { transfers, outcome: Ok(()) }
}

/// The number of large transfers: the block count rounded up to whole
/// transfers of 65535 blocks.
fn large_count(len: usize, block_length: usize) -> (n: usize)
    requires
        block_length > 0,
        len + block_length - 1 <= usize::MAX,
    ensures
        n == large_transfer_count(len as nat, block_length as nat),
{
    let block_count = (len + (block_length - 1)) / block_length;
    let n = block_count / MAX_LARGE_BLOCK_COUNT + if block_count % MAX_LARGE_BLOCK_COUNT != 0 {
        1
    } else {
        0
    };
    assert(n == (block_count + MAX_LARGE_BLOCK_COUNT - 1) / MAX_LARGE_BLOCK_COUNT as int) by {
        let c = MAX_LARGE_BLOCK_COUNT as int;
        vstd::arithmetic::div_mod::lemma_fundamental_div_mod(block_count as int, c);
        if block_count % MAX_LARGE_BLOCK_COUNT != 0 {
            vstd::arithmetic::div_mod::lemma_fundamental_div_mod_converse(
                block_count + c - 1,
                c,
                block_count as int / c + 1,
                block_count as int % c - 1,
            );
        } else {
            vstd::arithmetic::div_mod::lemma_fundamental_div_mod_converse(
                block_count + c - 1,
                c,
                block_count as int / c,
                c - 1,
            );
        }
    }
    n
}

proof fn lemma_count_zero(len: nat, b: nat)
    requires
        b > 0,
    ensures
        large_transfer_count(len, b) == 0 <==> len == 0,
{
    let bc = ceil_div(len, b) as int;
    if len > 0 {
        assert(bc >= 1) by (nonlinear_arith)
            requires
                bc == (len + b - 1) / (b as int),
                len > 0,
                b > 0,
        ;
    } else {
        assert(bc == 0) by (nonlinear_arith)
            requires
                bc == (b - 1) / (b as int),
                b > 0,
        ;
    }
}

/// What one round of the large transfer loop computes: piece `k` starts at
/// `k * span`, is a whole span unless it is the last, and the last piece
/// has the same remainder modulo the block length as the whole data.
proof fn lemma_step(len: nat, b: nat, k: int)
    requires
        b > 0,
        0 <= k < large_transfer_count(len, b),
        large_transfer_count(len, b) * large_span(b) <= usize::MAX,
    ensures
        k * large_span(b) < len,
        k * large_span(b) + large_span(b) <= usize::MAX,
        large_piece_len(len, b, k) == if k * large_span(b) + large_span(b) > len {
            len - k * large_span(b)
        } else {
            large_span(b) as int
        },
        k + 1 < large_transfer_count(len, b) ==> large_piece_len(len, b, k) == large_span(b),
        k + 1 < large_transfer_count(len, b) ==> (k + 1) * large_span(b) < len,
        k + 1 < large_transfer_count(len, b) ==> large_piece_len(len, b, k) % (b as int) == 0,
        k + 1 == large_transfer_count(len, b) ==> large_piece_len(len, b, k) % (b as int) == (len as int) % (
        b as int),
        k + 1 == large_transfer_count(len, b) ==> k * large_span(b) + large_piece_len(len, b, k)
            == len,
        k * large_span(b) + large_piece_len(len, b, k) == (k + 1) * large_span(b) || k + 1
            == large_transfer_count(len, b),
        large_piece_len(len, b, k) % (b as int) != 0 ==> large_piece_len(len, b, k) + b
            - large_piece_len(len, b, k) % (b as int) <= usize::MAX,
{
    lemma_piece_bounds(len, b, k);
    let s = large_span(b) as int;
    let o = k * s;
    if k + 1 == large_transfer_count(len, b) {
        vstd::arithmetic::div_mod::lemma_mod_sub_multiples_vanish(len as int, b as int);
        assert((len - o) % (b as int) == (len as int) % (b as int)) by {
            vstd::arithmetic::div_mod::lemma_sub_mod_noop(len as int, o, b as int);
            vstd::arithmetic::div_mod::lemma_mod_twice(len as int, b as int);
            vstd::arithmetic::div_mod::lemma_small_mod(0, b);
            vstd::arithmetic::div_mod::lemma_add_mod_noop((len as int) % (b as int), 0, b as int);
        }
    }
    let p = large_piece_len(len, b, k);
    if p % (b as int) != 0 {
        let bi = b as int;
        vstd::arithmetic::div_mod::lemma_fundamental_div_mod(p, bi);
        let q = p / bi;
        let r = p % bi;
        assert(p <= s);
        assert(p + bi - r <= s) by (nonlinear_arith)
            requires
                p == bi * q + r,
                0 < r < bi,
                p <= s,
                s == MAX_LARGE_BLOCK_COUNT * bi,
                bi > 0,
        {
            assert(q < MAX_LARGE_BLOCK_COUNT) by (nonlinear_arith)
                requires
                    bi * q + r <= MAX_LARGE_BLOCK_COUNT * bi,
                    0 < r,
                    bi > 0,
            ;
            assert(bi * (q + 1) <= MAX_LARGE_BLOCK_COUNT * bi) by (nonlinear_arith)
                requires
                    q + 1 <= MAX_LARGE_BLOCK_COUNT,
                    bi > 0,
            ;
        }
    }
}

/// Bytes that one large read asks for: with `append_zeros` a length that
/// is not a whole number of blocks is rounded up to the next whole block.
pub open spec fn read_large_actual(length: nat, b: nat, append_zeros: bool) -> nat {
    if append_zeros && length % b != 0 {
        (length + (b - length % b)) as nat
    } else {
        length
    }
}

/// `n` bulk reads of `b` bytes each.
pub open spec fn bulk_reads(b: nat, n: nat) -> Seq<TransferView> {
    Seq::new(n, |j: int| TransferView::BulkIn { len: b as usize })
}

/// The transfers that read `length` bytes at `address` in blocks of `b`:
/// the announcing control request, then one bulk read of `b` bytes per block.
pub open spec fn read_large_piece_view(address: u32, length: nat, b: nat, append_zeros: bool) -> Seq<
    TransferView,
> {
    let actual = read_large_actual(length, b, append_zeros);
    seq![large_header(REQ_RD_LARGE_MEM, address, actual, b)] + bulk_reads(b, ceil_div(actual, b))
}

/// The transfers of piece `k` of a large read.
pub open spec fn read_large_step(address: u32, length: nat, b: nat, append_zeros: bool, k: int) -> Seq<
    TransferView,
> {
    let piece_len = large_piece_len(length, b, k) as nat;
    if append_zeros || piece_len % b == 0 {
        read_large_piece_view(large_piece_address(address, b, k), piece_len, b, append_zeros)
    } else {
        Seq::empty()
    }
}

/// The transfers of each piece of a large memory read.
pub open spec fn read_large_steps(address: u32, length: nat, b: nat, append_zeros: bool) -> Seq<
    Seq<TransferView>,
> {
    Seq::new(
        large_transfer_count(length, b),
        |k: int| read_large_step(address, length, b, append_zeros, k),
    )
}

/// All transfers of a large memory read.
pub open spec fn read_large_memory_view(
    address: u32,
    length: nat,
    b: nat,
    append_zeros: bool,
) -> Seq<TransferView> {
    read_large_steps(address, length, b, append_zeros).flatten_alt()
}

/// Appends the transfers of one large read of at most 65535 blocks, or
/// refuses a length that is not a whole number of blocks unless it is padded.
fn read_large_memory_inner(
    transfers: &mut Vec<Transfer>,
    address: u32,
    length: usize,
    block_length: usize,
    append_zeros: bool,
) -> (r: Result<(), AmlError>)
    requires
        block_length > 0,
        append_zeros && length % block_length != 0 ==> length + block_length - length
            % block_length <= usize::MAX,
    ensures
        r is Err <==> !append_zeros && length % block_length != 0,
        r is Err ==> r == Err::<(), AmlError>(
            AmlError::BlockAlignment { data_length: length, block_length },
        ) && final(transfers)@ == old(transfers)@,
        r is Ok ==> transfers_view(final(transfers)@) == transfers_view(old(transfers)@)
            + read_large_piece_view(address, length as nat, block_length as nat, append_zeros),
{
    let actual_length = if append_zeros {
        let remainder = length % block_length;
        if remainder != 0 {
            length + (block_length - remainder)
        } else {
            length
        }
    } else {
        if length % block_length != 0 {
            return Err(AmlError::BlockAlignment { data_length: length, block_length });
        }
        length
    };
    proof {
        if actual_length % block_length > 0 {
            assert(block_length >= 2);
            assert(actual_length / block_length < usize::MAX) by (nonlinear_arith)
                requires
                    block_length >= 2,
                    actual_length <= usize::MAX,
            {
                vstd::arithmetic::div_mod::lemma_div_is_ordered_by_denominator(
                    actual_length as int,
                    2,
                    block_length as int,
                );
            }
        }
    }
    let block_count = actual_length / block_length + if actual_length % block_length > 0 {
        1
    } else {
        0
    };
    proof {
        lemma_ceil_div(actual_length as nat, block_length as nat);
    }
    transfers.push(
        Transfer::ControlOut {
            request: REQ_RD_LARGE_MEM,
            value: low_u16(block_length),
            index: low_u16(block_count),
            data: pack_u32x4(address, low_u32(actual_length), 0, 0),
        },
    );
    let ghost start = transfers_view(old(transfers)@) + seq![large_header(REQ_RD_LARGE_MEM, address, actual_length as nat, block_length as nat)];
    assert(transfers_view(transfers@) =~= start);
    let ghost reads = bulk_reads(block_length as nat, block_count as nat);
    let mut j: usize = 0;
    while j < block_count
        invariant
            j <= block_count,
            reads == bulk_reads(block_length as nat, block_count as nat),
            transfers_view(transfers@) == start + reads.take(j as int),
        decreases block_count - j,
    {
        let ghost old_ts = transfers@;
        transfers.push(Transfer::BulkIn { len: block_length });
        assert(transfers@.drop_last() == old_ts);
        assert(transfers_view(transfers@) =~= transfers_view(old_ts).push(transfers@.last()@));
        assert(reads.take(j + 1) =~= reads.take(j as int).push(reads[j as int]));
        j = j + 1;
    }
    assert(reads.take(block_count as int) =~= reads);
    assert(transfers_view(transfers@) =~= transfers_view(old(transfers)@) + read_large_piece_view(
        address,
        length as nat,
        block_length as nat,
        append_zeros,
    ));
    Ok(())
}

/// Reads `length` bytes at `address` with large bulk transfers of at most
/// 65535 blocks each.  With `append_zeros` a length that is not a whole
/// number of blocks is read rounded up to whole blocks, else it is refused, once
/// the whole blocks before it have been read.  What the read gives back is
/// the bytes of all bulk reads, in order.
pub fn read_large_memory(address: u32, length: usize, block_length: usize, append_zeros: bool) -> (plan: Plan)
    requires
        large_access_fits(address, length as nat, block_length as nat),
    ensures
        plan.spec_transfers() == read_large_memory_view(address, length as nat, block_length as nat, append_zeros),
        plan.outcome is Err <==> !append_zeros && length % block_length != 0,
        plan.outcome is Err ==> plan.outcome == Err::<(), AmlError>(AmlError::BlockAlignment {
            data_length: large_piece_len(
                length as nat,
                block_length as nat,
                large_transfer_count(length as nat, block_length as nat) - 1,
            ) as usize,
            block_length,
        }),
{
    let ghost b = block_length as nat;
    let ghost count = large_transfer_count(length as nat, b);
    let ghost steps = read_large_steps(address, length as nat, b, append_zeros);
    let transfer_count = large_count(length, block_length);
    proof {
        lemma_count_zero(length as nat, b);
        vstd::arithmetic::div_mod::lemma_small_mod(0, b);
    }
    let mut transfers: Vec<Transfer> = Vec::new();
    let mut offset: usize = 0;
    let mut k: usize = 0;
    assert(steps.take(0).flatten_alt() =~= Seq::<TransferView>::empty());
    while k < transfer_count
        invariant
            b == block_length,
            large_access_fits(address, length as nat, b),
            transfer_count == count,
            count == large_transfer_count(length as nat, b),
            steps == read_large_steps(address, length as nat, b, append_zeros),
            k <= count,
            count > 0 ==> length > 0,
            k < count ==> offset == k * large_span(b),
            transfers_view(transfers@) == steps.take(k as int).flatten_alt(),
            k == count && !append_zeros ==> length % block_length == 0,
        decreases count - k,
    {
        proof {
            lemma_step(length as nat, b, k as int);
        }
        let span = MAX_LARGE_BLOCK_COUNT * block_length;
        let read_length = if offset + span > length {
            length - offset
        } else {
            span
        };
        assert(offset_address(address, k * large_span(b)) <= u32::MAX);
        let piece_address = address + low_u32(offset);
        let r = read_large_memory_inner(&mut transfers, piece_address, read_length, block_length, append_zeros);
        assert(steps.take(k + 1).drop_last() =~= steps.take(k as int));
        assert(steps.take(k + 1).last() == steps[k as int]);
        if r.is_err() {
            assert(steps.take(k + 1) =~= steps);
            return Plan { transfers, outcome: r };
        }
        offset = offset + read_length;
        k = k + 1;
    }
    assert(steps.take(count as int) =~= steps);
    Plan { transfers, outcome: Ok(()) }
}

/// The bulk bytes of two transfer sequences one after the other.
pub proof fn lemma_bulk_sent_concat(x: Seq<TransferView>, y: Seq<TransferView>)
    ensures
        bulk_sent_bytes(x + y) == bulk_sent_bytes(x) + bulk_sent_bytes(y),
    decreases y.len(),
{
    if y.len() == 0 {
        assert(x + y =~= x);
        assert(bulk_sent_bytes(x) + Seq::<u8>::empty() =~= bulk_sent_bytes(x));
    } else {
        assert((x + y).drop_last() =~= x + y.drop_last());
        assert((x + y).last() == y.last());
        lemma_bulk_sent_concat(x, y.drop_last());
        assert(bulk_sent_bytes(x + y) =~= bulk_sent_bytes(x) + bulk_sent_bytes(y));
    }
}

proof fn lemma_bulk_blocks(payload: Seq<u8>, b: nat, n: nat, j: nat)
    requires
        b > 0,
        j <= n,
        n * b <= payload.len(),
    ensures
        bulk_sent_bytes(bulk_blocks(payload, b, n).take(j as int)) == payload.take((j * b) as int),
    decreases j,
{
    let blocks = bulk_blocks(payload, b, n);
    if j == 0 {
        assert(j * b == 0) by (nonlinear_arith)
            requires
                j == 0,
        ;
        assert(payload.take(0) =~= Seq::<u8>::empty());
        assert(blocks.take(0) =~= Seq::<TransferView>::empty());
    } else {
        lemma_bulk_blocks(payload, b, n, (j - 1) as nat);
        assert(blocks.take(j as int).drop_last() =~= blocks.take(j - 1));
        assert(blocks.take(j as int).last() == blocks[j - 1]);
        assert(bulk_sent_bytes(blocks.take(j as int)) == bulk_sent_bytes(blocks.take(j - 1))
            + payload.subrange((j - 1) * b, (j - 1) * b + b));
        assert((j - 1) * b + b == j * b) by (nonlinear_arith);
        assert(j * b <= n * b) by (nonlinear_arith)
            requires
                j <= n,
        ;
        assert(payload.take((j * b) as int) =~= payload.take((j - 1) * b) + payload.subrange(
            (j - 1) * b,
            (j - 1) * b + b,
        ));
    }
}

/// A large write of a whole number of blocks sends the payload, block by
/// block, over the bulk endpoint.
pub proof fn lemma_large_piece_sends_payload(address: u32, payload: Seq<u8>, b: nat)
    requires
        b > 0,
        payload.len() % b == 0,
    ensures
        bulk_sent_bytes(write_large_piece_view(address, payload, b)) == payload,
{
    let n = payload.len() / b;
    let blocks = bulk_blocks(payload, b, n);
    vstd::arithmetic::div_mod::lemma_fundamental_div_mod(payload.len() as int, b as int);
    assert(n * b == payload.len()) by (nonlinear_arith)
        requires
            payload.len() == b * (payload.len() as int / b as int) + 0,
            n == payload.len() as int / b as int,
    ;
    lemma_bulk_blocks(payload, b, n, n);
    assert(blocks.take(n as int) =~= blocks);
    assert(payload.take((n * b) as int) =~= payload);
    let head = seq![large_header(REQ_WR_LARGE_MEM, address, payload.len(), b)];
    lemma_bulk_sent_concat(head, blocks);
    assert(head.drop_last() =~= Seq::<TransferView>::empty());
    reveal_with_fuel(bulk_sent_bytes, 2);
    assert(bulk_sent_bytes(head) =~= Seq::<u8>::empty());
}

proof fn lemma_full_step_sends(address: u32, data: Seq<u8>, b: nat, append_zeros: bool, j: nat)
    requires
        b > 0,
        j + 1 < large_transfer_count(data.len(), b),
    ensures
        bulk_sent_bytes(write_large_step(address, data, b, append_zeros, j as int)) == large_piece(
            data,
            b,
            j as int,
        ),
        large_piece(data, b, j as int).len() == large_span(b),
        (j + 1) * large_span(b) <= data.len(),
{
    lemma_piece_bounds(data.len(), b, j as int);
    let piece = large_piece(data, b, j as int);
    assert(piece.len() % b == 0);
    lemma_large_piece_sends_payload(large_piece_address(address, b, j as int), piece, b);
}

proof fn lemma_write_large_prefix(address: u32, data: Seq<u8>, b: nat, append_zeros: bool, k: nat)
    requires
        b > 0,
        k < large_transfer_count(data.len(), b),
    ensures
        bulk_sent_bytes(write_large_steps(address, data, b, append_zeros).take(k as int).flatten_alt())
            == data.take((k * large_span(b)) as int),
    decreases k,
{
    let t = large_transfer_count(data.len(), b);
    let steps = write_large_steps(address, data, b, append_zeros);
    if k == 0 {
        assert(k * large_span(b) == 0) by (nonlinear_arith)
            requires
                k == 0,
        ;
        assert(steps.take(0).flatten_alt() =~= Seq::<TransferView>::empty());
        assert(data.take(0) =~= Seq::<u8>::empty());
    } else {
        let j = (k - 1) as nat;
        let s = large_span(b);
        lemma_write_large_prefix(address, data, b, append_zeros, j);
        lemma_full_step_sends(address, data, b, append_zeros, j);
        assert(steps.take(k as int).drop_last() =~= steps.take(j as int));
        assert(steps.take(k as int).last() == steps[j as int]);
        lemma_bulk_sent_concat(steps.take(j as int).flatten_alt(), steps[j as int]);
        assert(j * s + s == k * s) by (nonlinear_arith)
            requires
                k == j + 1,
        ;
        assert(data.take((k * s) as int) =~= data.take((j * s) as int) + large_piece(data, b, j as int));
    }
}

proof fn lemma_zero_pad_whole(p: Seq<u8>, b: nat)
    requires
        b > 0,
    ensures
        zero_pad(p, b).len() % b == 0,
{
    if p.len() % b != 0 {
        let pl = p.len() as int;
        let bi = b as int;
        vstd::arithmetic::div_mod::lemma_fundamental_div_mod(pl, bi);
        vstd::arithmetic::div_mod::lemma_mod_multiples_basic(pl / bi + 1, bi);
        assert(zero_pad(p, b).len() == (pl / bi + 1) * bi) by (nonlinear_arith)
            requires
                zero_pad(p, b).len() == pl + bi - pl % bi,
                pl == bi * (pl / bi) + pl % bi,
        ;
    }
}

proof fn lemma_mod_after_whole(len: int, o: int, b: int)
    requires
        b > 0,
        0 <= o <= len,
        o % b == 0,
    ensures
        (len - o) % b == len % b,
{
    vstd::arithmetic::div_mod::lemma_sub_mod_noop(len, o, b);
    vstd::arithmetic::div_mod::lemma_mod_twice(len, b);
    vstd::arithmetic::div_mod::lemma_small_mod(0, b as nat);
    vstd::arithmetic::div_mod::lemma_add_mod_noop(len % b, 0, b);
}

proof fn lemma_zero_pad_suffix(data: Seq<u8>, o: int, b: nat)
    requires
        b > 0,
        0 <= o <= data.len(),
        o % (b as int) == 0,
    ensures
        data.take(o) + zero_pad(data.skip(o), b) == zero_pad(data, b),
{
    lemma_mod_after_whole(data.len() as int, o, b as int);
    assert(data.skip(o).len() == data.len() - o);
    assert(data.take(o) + zero_pad(data.skip(o), b) =~= zero_pad(data, b));
}

proof fn lemma_last_step_sends(address: u32, data: Seq<u8>, b: nat, append_zeros: bool)
    requires
        b > 0,
        large_transfer_count(data.len(), b) > 0,
    ensures
        ({
            let j = large_transfer_count(data.len(), b) - 1;
            let o = j * large_span(b);
            &&& 0 <= o <= data.len()
            &&& o % (b as int) == 0
            &&& large_piece(data, b, j) == data.skip(o)
            &&& bulk_sent_bytes(write_large_step(address, data, b, append_zeros, j)) == if append_zeros
                || data.len() % b == 0 {
                zero_pad(data.skip(o), b)
            } else {
                Seq::empty()
            }
        }),
{
    let j = large_transfer_count(data.len(), b) - 1;
    lemma_piece_bounds(data.len(), b, j);
    let o = j * large_span(b);
    let piece = large_piece(data, b, j);
    assert(piece =~= data.skip(o));
    lemma_mod_after_whole(data.len() as int, o, b as int);
    if append_zeros || data.len() % b == 0 {
        lemma_zero_pad_whole(piece, b);
        lemma_large_piece_sends_payload(large_piece_address(address, b, j), zero_pad(piece, b), b);
    } else {
        assert(bulk_sent_bytes(Seq::<TransferView>::empty()) =~= Seq::<u8>::empty());
    }
}

/// A large memory write sends the data over the bulk endpoint, padded with
/// zeros to a whole number of blocks when `append_zeros` is set; refused for
/// a length that is not a whole number of blocks, it sends the whole spans
/// before the last one.
pub proof fn lemma_write_large_memory_sends_data(address: u32, data: Seq<u8>, b: nat, append_zeros: bool)
    requires
        b > 0,
    ensures
        append_zeros || data.len() % b == 0 ==> bulk_sent_bytes(
            write_large_memory_view(address, data, b, append_zeros),
        ) == zero_pad(data, b),
        !append_zeros && data.len() % b != 0 ==> bulk_sent_bytes(
            write_large_memory_view(address, data, b, append_zeros),
        ) == data.take((large_transfer_count(data.len(), b) - 1) * large_span(b)),
{
    let t = large_transfer_count(data.len(), b);
    let steps = write_large_steps(address, data, b, append_zeros);
    lemma_count_zero(data.len(), b);
    if t == 0 {
        assert(steps =~= Seq::<Seq<TransferView>>::empty());
        vstd::arithmetic::div_mod::lemma_small_mod(0, b);
        assert(zero_pad(data, b) =~= Seq::<u8>::empty());
    } else {
        let j = (t - 1) as nat;
        let o = (j * large_span(b)) as int;
        lemma_write_large_prefix(address, data, b, append_zeros, j);
        lemma_last_step_sends(address, data, b, append_zeros);
        assert(steps.take(t as int) =~= steps);
        assert(steps.take(t as int).drop_last() =~= steps.take(j as int));
        lemma_bulk_sent_concat(steps.take(j as int).flatten_alt(), steps[j as int]);
        if append_zeros || data.len() % b == 0 {
            lemma_zero_pad_suffix(data, o, b);
        } else {
            assert(data.take(o) + Seq::<u8>::empty() =~= data.take(o));
        }
    }
}

proof fn lemma_bulk_reads_requested(b: nat, n: nat)
    requires
        b <= usize::MAX,
    ensures
        requested_bytes(bulk_reads(b, n)) == n * b,
    decreases n,
{
    if n == 0 {
        assert(bulk_reads(b, 0) =~= Seq::<TransferView>::empty());
    } else {
        lemma_bulk_reads_requested(b, (n - 1) as nat);
        assert(bulk_reads(b, n).drop_last() =~= bulk_reads(b, (n - 1) as nat));
        assert((n - 1) * b + b == n * b) by (nonlinear_arith);
    }
}

proof fn lemma_round_up_whole(p: nat, b: nat)
    requires
        b > 0,
    ensures
        read_large_actual(p, b, true) % b == 0,
        read_large_actual(p, b, true) >= p,
{
    if p % b != 0 {
        let pl = p as int;
        let bi = b as int;
        vstd::arithmetic::div_mod::lemma_fundamental_div_mod(pl, bi);
        vstd::arithmetic::div_mod::lemma_mod_multiples_basic(pl / bi + 1, bi);
        assert(pl + (bi - pl % bi) == (pl / bi + 1) * bi) by (nonlinear_arith)
            requires
                pl == bi * (pl / bi) + pl % bi,
        ;
    }
}

proof fn lemma_read_piece_requested(address: u32, p: nat, b: nat, append_zeros: bool)
    requires
        0 < b <= usize::MAX,
        append_zeros || p % b == 0,
    ensures
        requested_bytes(read_large_piece_view(address, p, b, append_zeros)) == read_large_actual(
            p,
            b,
            append_zeros,
        ),
{
    let a = read_large_actual(p, b, append_zeros);
    lemma_round_up_whole(p, b);
    assert(a % b == 0);
    let n = ceil_div(a, b);
    lemma_ceil_div(a, b);
    vstd::arithmetic::div_mod::lemma_fundamental_div_mod(a as int, b as int);
    assert(n * b == a) by (nonlinear_arith)
        requires
            n == a / b,
            a == b * (a / b) + 0,
    ;
    lemma_bulk_reads_requested(b, n);
    let head = seq![large_header(REQ_RD_LARGE_MEM, address, a, b)];
    lemma_requested_bytes_concat(head, bulk_reads(b, n));
    assert(head.drop_last() =~= Seq::<TransferView>::empty());
    reveal_with_fuel(requested_bytes, 2);
}

proof fn lemma_full_read_step(address: u32, length: nat, b: nat, append_zeros: bool, j: nat)
    requires
        0 < b <= usize::MAX,
        j + 1 < large_transfer_count(length, b),
    ensures
        requested_bytes(read_large_step(address, length, b, append_zeros, j as int)) == large_span(b),
{
    lemma_piece_bounds(length, b, j as int);
    assert(large_piece_len(length, b, j as int) == large_span(b));
    lemma_read_piece_requested(large_piece_address(address, b, j as int), large_span(b), b, append_zeros);
}

proof fn lemma_read_large_prefix(address: u32, length: nat, b: nat, append_zeros: bool, k: nat)
    requires
        0 < b <= usize::MAX,
        k < large_transfer_count(length, b),
    ensures
        requested_bytes(read_large_steps(address, length, b, append_zeros).take(k as int).flatten_alt())
            == k * large_span(b),
    decreases k,
{
    let steps = read_large_steps(address, length, b, append_zeros);
    if k == 0 {
        assert(k * large_span(b) == 0) by (nonlinear_arith)
            requires
                k == 0,
        ;
        assert(steps.take(0).flatten_alt() =~= Seq::<TransferView>::empty());
    } else {
        let j = (k - 1) as nat;
        lemma_read_large_prefix(address, length, b, append_zeros, j);
        lemma_full_read_step(address, length, b, append_zeros, j);
        assert(steps.take(k as int).drop_last() =~= steps.take(j as int));
        assert(steps.take(k as int).last() == steps[j as int]);
        lemma_requested_bytes_concat(steps.take(j as int).flatten_alt(), steps[j as int]);
        assert(j * large_span(b) + large_span(b) == k * large_span(b)) by (nonlinear_arith)
            requires
                k == j + 1,
        ;
    }
}

/// A large read asks the device for its length rounded up to whole
/// blocks when `append_zeros` is set, and for exactly its length when that
/// is a whole number of blocks, in bulk reads of one block each.
pub proof fn lemma_read_large_memory_asks_length(address: u32, length: nat, b: nat, append_zeros: bool)
    requires
        0 < b <= usize::MAX,
        append_zeros || length % b == 0,
    ensures
        requested_bytes(read_large_memory_view(address, length, b, append_zeros)) == read_large_actual(
            length,
            b,
            append_zeros,
        ),
        length % b == 0 ==> read_large_actual(length, b, append_zeros) == length,
{
    let t = large_transfer_count(length, b);
    let steps = read_large_steps(address, length, b, append_zeros);
    lemma_count_zero(length, b);
    if t == 0 {
        assert(steps =~= Seq::<Seq<TransferView>>::empty());
        vstd::arithmetic::div_mod::lemma_small_mod(0, b);
    } else {
        let j = (t - 1) as nat;
        lemma_read_large_prefix(address, length, b, append_zeros, j);
        lemma_piece_bounds(length, b, j as int);
        let o = j * large_span(b);
        lemma_mod_after_whole(length as int, o as int, b as int);
        let p = (length - o) as nat;
        assert(large_piece_len(length, b, j as int) == p);
        lemma_read_piece_requested(large_piece_address(address, b, j as int), p, b, append_zeros);
        assert(steps.take(t as int) =~= steps);
        assert(steps.take(t as int).drop_last() =~= steps.take(j as int));
        lemma_requested_bytes_concat(steps.take(j as int).flatten_alt(), steps[j as int]);
    }
}

/// Each request among `ts` announces `base` plus the bytes that the
/// transfers before it ask for, within the 32-bit address space.
pub open spec fn reads_follow(ts: Seq<TransferView>, base: int) -> bool {
    forall|i: int|
        0 <= i < ts.len() && (#[trigger] ts[i]) is ControlOut ==> announced_address(ts[i]) == (base
            + requested_bytes(ts.take(i))) % 0x1_0000_0000
}

proof fn lemma_reads_follow_shift(ts: Seq<TransferView>, b1: int, b2: int)
    requires
        reads_follow(ts, b1),
        b1 % 0x1_0000_0000 == b2 % 0x1_0000_0000,
    ensures
        reads_follow(ts, b2),
{
    assert forall|i: int| 0 <= i < ts.len() && (#[trigger] ts[i]) is ControlOut implies announced_address(
        ts[i],
    ) == (b2 + requested_bytes(ts.take(i))) % 0x1_0000_0000 by {
        let r = requested_bytes(ts.take(i)) as int;
        vstd::arithmetic::div_mod::lemma_add_mod_noop(b1, r, 0x1_0000_0000);
        vstd::arithmetic::div_mod::lemma_add_mod_noop(b2, r, 0x1_0000_0000);
    }
}

proof fn lemma_reads_follow_concat(x: Seq<TransferView>, y: Seq<TransferView>, base: int)
    requires
        reads_follow(x, base),
        reads_follow(y, base + requested_bytes(x)),
    ensures
        reads_follow(x + y, base),
{
    let z = x + y;
    assert forall|i: int| 0 <= i < z.len() && (#[trigger] z[i]) is ControlOut implies announced_address(
        z[i],
    ) == (base + requested_bytes(z.take(i))) % 0x1_0000_0000 by {
        if i < x.len() {
            assert(z[i] == x[i]);
            assert(z.take(i) =~= x.take(i));
        } else {
            let j = i - x.len();
            assert(z[i] == y[j]);
            assert(z.take(i) =~= x + y.take(j));
            lemma_requested_bytes_concat(x, y.take(j));
        }
    }
}

proof fn lemma_read_piece_follows(address: u32, p: nat, b: nat, append_zeros: bool)
    ensures
        reads_follow(read_large_piece_view(address, p, b, append_zeros), address as int),
{
    let ts = read_large_piece_view(address, p, b, append_zeros);
    let a = read_large_actual(p, b, append_zeros);
    assert forall|i: int| 0 <= i < ts.len() && (#[trigger] ts[i]) is ControlOut implies announced_address(
        ts[i],
    ) == (address + requested_bytes(ts.take(i))) % 0x1_0000_0000 by {
        if i == 0 {
            let h = large_header(REQ_RD_LARGE_MEM, address, a, b);
            assert(ts[0] == h);
            match h {
                TransferView::ControlOut { data, .. } => {
                    assert(data.subrange(0, 4) =~= le_bytes_u32(address));
                },
                _ => {},
            }
            lemma_le_bytes_u32_roundtrip(address);
            assert(ts.take(0) =~= Seq::<TransferView>::empty());
            vstd::arithmetic::div_mod::lemma_small_mod(address as nat, 0x1_0000_0000);
        } else {
            assert(ts[i] == bulk_reads(b, ceil_div(a, b))[i - 1]);
        }
    }
}

proof fn lemma_read_large_follows_prefix(
    address: u32,
    length: nat,
    b: nat,
    append_zeros: bool,
    k: nat,
)
    requires
        0 < b <= usize::MAX,
        large_access_fits(address, length, b),
        k <= large_transfer_count(length, b),
    ensures
        reads_follow(read_large_steps(address, length, b, append_zeros).take(k as int).flatten_alt(), address as int),
    decreases k,
{
    let steps = read_large_steps(address, length, b, append_zeros);
    if k == 0 {
        assert(steps.take(0).flatten_alt() =~= Seq::<TransferView>::empty());
    } else {
        let j = (k - 1) as nat;
        lemma_read_large_follows_prefix(address, length, b, append_zeros, j);
        lemma_read_large_prefix(address, length, b, append_zeros, j);
        assert(steps.take(k as int).drop_last() =~= steps.take(j as int));
        assert(steps.take(k as int).last() == steps[j as int]);
        let x = steps.take(j as int).flatten_alt();
        let y = steps[j as int];
        let o = j * large_span(b);
        let a = large_piece_address(address, b, j as int);
        assert(offset_address(address, o as int) <= u32::MAX);
        let piece_len = large_piece_len(length, b, j as int) as nat;
        if append_zeros || piece_len % b == 0 {
            lemma_read_piece_follows(a, piece_len, b, append_zeros);
            vstd::arithmetic::div_mod::lemma_add_mod_noop(address as int, o as int, 0x1_0000_0000);
            vstd::arithmetic::div_mod::lemma_mod_twice(o as int, 0x1_0000_0000);
            vstd::arithmetic::div_mod::lemma_small_mod(address as nat, 0x1_0000_0000);
            vstd::arithmetic::div_mod::lemma_add_mod_noop(address as int, (o as int) % 0x1_0000_0000, 0x1_0000_0000);
            lemma_reads_follow_shift(y, a as int, address + requested_bytes(x));
        } else {
            assert(y =~= Seq::<TransferView>::empty());
        }
        lemma_reads_follow_concat(x, y, address as int);
    }
}

/// Where the pieces of a large read go: each request announces the address
/// that follows the bytes asked for by the bulk reads before it, so byte `i`
/// of the joined answer is the byte at `address + i` (within the 32-bit
/// address space).
pub proof fn lemma_read_large_memory_addresses(address: u32, length: nat, b: nat, append_zeros: bool)
    requires
        0 < b <= usize::MAX,
        large_access_fits(address, length, b),
    ensures
        ({
            let ts = read_large_memory_view(address, length, b, append_zeros);
            forall|i: int|
                0 <= i < ts.len() && (#[trigger] ts[i]) is ControlOut ==> announced_address(ts[i])
                    == (address + requested_bytes(ts.take(i))) % 0x1_0000_0000
        }),
{
    let t = large_transfer_count(length, b);
    let steps = read_large_steps(address, length, b, append_zeros);
    lemma_read_large_follows_prefix(address, length, b, append_zeros, t);
    assert(steps.take(t as int) =~= steps);
}

/// Each request among `ts` announces `base` plus the bytes that the bulk
/// writes before it send, within the 32-bit address space.
pub open spec fn writes_follow(ts: Seq<TransferView>, base: int) -> bool {
    forall|i: int|
        0 <= i < ts.len() && (#[trigger] ts[i]) is ControlOut ==> announced_address(ts[i]) == (base
            + bulk_sent_bytes(ts.take(i)).len()) % 0x1_0000_0000
}

proof fn lemma_writes_follow_shift(ts: Seq<TransferView>, b1: int, b2: int)
    requires
        writes_follow(ts, b1),
        b1 % 0x1_0000_0000 == b2 % 0x1_0000_0000,
    ensures
        writes_follow(ts, b2),
{
    assert forall|i: int| 0 <= i < ts.len() && (#[trigger] ts[i]) is ControlOut implies announced_address(
        ts[i],
    ) == (b2 + bulk_sent_bytes(ts.take(i)).len()) % 0x1_0000_0000 by {
        let r = bulk_sent_bytes(ts.take(i)).len() as int;
        vstd::arithmetic::div_mod::lemma_add_mod_noop(b1, r, 0x1_0000_0000);
        vstd::arithmetic::div_mod::lemma_add_mod_noop(b2, r, 0x1_0000_0000);
    }
}

proof fn lemma_writes_follow_concat(x: Seq<TransferView>, y: Seq<TransferView>, base: int)
    requires
        writes_follow(x, base),
        writes_follow(y, base + bulk_sent_bytes(x).len()),
    ensures
        writes_follow(x + y, base),
{
    let z = x + y;
    assert forall|i: int| 0 <= i < z.len() && (#[trigger] z[i]) is ControlOut implies announced_address(
        z[i],
    ) == (base + bulk_sent_bytes(z.take(i)).len()) % 0x1_0000_0000 by {
        if i < x.len() {
            assert(z[i] == x[i]);
            assert(z.take(i) =~= x.take(i));
        } else {
            let j = i - x.len();
            assert(z[i] == y[j]);
            assert(z.take(i) =~= x + y.take(j));
            lemma_bulk_sent_concat(x, y.take(j));
        }
    }
}

proof fn lemma_bulk_blocks_are_bulk(payload: Seq<u8>, b: nat, n: nat, j: int)
    requires
        0 <= j < n,
    ensures
        bulk_blocks(payload, b, n)[j] is BulkOut,
{
}

proof fn lemma_write_header_announces(address: u32, length: nat, b: nat)
    ensures
        large_header(REQ_WR_LARGE_MEM, address, length, b) is ControlOut,
        announced_address(large_header(REQ_WR_LARGE_MEM, address, length, b)) == address,
{
    let h = large_header(REQ_WR_LARGE_MEM, address, length, b);
    match h {
        TransferView::ControlOut { data, .. } => {
            assert(data.subrange(0, 4) =~= le_bytes_u32(address));
        },
        _ => {},
    }
    lemma_le_bytes_u32_roundtrip(address);
}

proof fn lemma_write_piece_follows(address: u32, payload: Seq<u8>, b: nat)
    requires
        b > 0,
    ensures
        writes_follow(write_large_piece_view(address, payload, b), address as int),
{
    let ts = write_large_piece_view(address, payload, b);
    let n = payload.len() / b;
    let blocks = bulk_blocks(payload, b, n);
    let h = large_header(REQ_WR_LARGE_MEM, address, payload.len(), b);
    assert(ts == seq![h] + blocks);
    assert(blocks.len() == n);
    assert(ts.len() == n + 1);
    lemma_write_header_announces(address, payload.len(), b);
    assert(ts.take(0) =~= Seq::<TransferView>::empty());
    assert(bulk_sent_bytes(ts.take(0)).len() == 0);
    vstd::arithmetic::div_mod::lemma_small_mod(address as nat, 0x1_0000_0000);
    assert forall|i: int| 0 <= i < ts.len() && (#[trigger] ts[i]) is ControlOut implies announced_address(
        ts[i],
    ) == (address + bulk_sent_bytes(ts.take(i)).len()) % 0x1_0000_0000 by {
        if i > 0 {
            assert(ts[i] == blocks[i - 1]);
            lemma_bulk_blocks_are_bulk(payload, b, n, i - 1);
        }
    }
}

proof fn lemma_write_large_follows_prefix(
    address: u32,
    data: Seq<u8>,
    b: nat,
    append_zeros: bool,
    k: nat,
)
    requires
        large_access_fits(address, data.len(), b),
        k <= large_transfer_count(data.len(), b),
    ensures
        writes_follow(write_large_steps(address, data, b, append_zeros).take(k as int).flatten_alt(), address as int),
    decreases k,
{
    let steps = write_large_steps(address, data, b, append_zeros);
    if k == 0 {
        assert(steps.take(0).flatten_alt() =~= Seq::<TransferView>::empty());
    } else {
        let j = (k - 1) as nat;
        lemma_write_large_follows_prefix(address, data, b, append_zeros, j);
        lemma_write_large_prefix(address, data, b, append_zeros, j);
        lemma_piece_bounds(data.len(), b, j as int);
        assert(steps.take(k as int).drop_last() =~= steps.take(j as int));
        assert(steps.take(k as int).last() == steps[j as int]);
        let x = steps.take(j as int).flatten_alt();
        let y = steps[j as int];
        let o = j * large_span(b);
        assert(bulk_sent_bytes(x).len() == o);
        let a = large_piece_address(address, b, j as int);
        assert(offset_address(address, o as int) <= u32::MAX);
        let piece = large_piece(data, b, j as int);
        if append_zeros || piece.len() % b == 0 {
            lemma_write_piece_follows(a, zero_pad(piece, b), b);
            vstd::arithmetic::div_mod::lemma_add_mod_noop(address as int, o as int, 0x1_0000_0000);
            vstd::arithmetic::div_mod::lemma_mod_twice(o as int, 0x1_0000_0000);
            vstd::arithmetic::div_mod::lemma_small_mod(address as nat, 0x1_0000_0000);
            vstd::arithmetic::div_mod::lemma_add_mod_noop(address as int, (o as int) % 0x1_0000_0000, 0x1_0000_0000);
            lemma_writes_follow_shift(y, a as int, address + bulk_sent_bytes(x).len());
        } else {
            assert(y =~= Seq::<TransferView>::empty());
        }
        lemma_writes_follow_concat(x, y, address as int);
    }
}

/// Where the pieces of a large write go: each request announces the address
/// that follows the bytes sent by the bulk writes before it, so byte `i` of
/// the data lands at `address + i` (within the 32-bit address space).
pub proof fn lemma_write_large_memory_addresses(address: u32, data: Seq<u8>, b: nat, append_zeros: bool)
    requires
        large_access_fits(address, data.len(), b),
    ensures
        ({
            let ts = write_large_memory_view(address, data, b, append_zeros);
            forall|i: int|
                0 <= i < ts.len() && (#[trigger] ts[i]) is ControlOut ==> announced_address(ts[i])
                    == (address + bulk_sent_bytes(ts.take(i)).len()) % 0x1_0000_0000
        }),
{
    let t = large_transfer_count(data.len(), b);
    let steps = write_large_steps(address, data, b, append_zeros);
    lemma_write_large_follows_prefix(address, data, b, append_zeros, t);
    assert(steps.take(t as int) =~= steps);
}

} // verus!
