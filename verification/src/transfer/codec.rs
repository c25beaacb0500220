//! The binary payload of a layout string: varints, little-endian words and tower records.

use vstd::prelude::*;
use crate::core_types::geometry::CellCoord;
use crate::core_types::values::TowerKind;
use super::error::LayoutTransferError;

verus! {

/// Tower description captured within a layout snapshot.
#[derive(Clone, Copy, Debug, PartialEq, Eq, Structural)]
pub struct TowerLayoutTower {
    /// Type of tower represented by the snapshot.
    pub kind: TowerKind,
    /// Upper-left cell anchoring the tower's footprint.
    pub origin: CellCoord,
}

/// The varint encoding of `value`: seven bits per byte, least significant
/// group first, the high bit set on every byte but the last.
pub open spec fn varint_bytes(value: nat) -> Seq<u8>
    decreases value,
{
    if value < 128 {
        seq![value as u8]
    } else {
        seq![(value % 128 + 128) as u8] + varint_bytes(value / 128)
    }
}

/// Appends the varint encoding of `value` to `buffer`.
pub fn encode_varint(value: u32, buffer: &mut Vec<u8>)
    ensures
        final(buffer)@ == old(buffer)@ + varint_bytes(value as nat),
{
    let mut rest: u32 = value;
    let ghost start = buffer@;
    while rest >= 128
        invariant
            start + varint_bytes(value as nat) == buffer@ + varint_bytes(rest as nat),
        decreases rest,
    {
        let byte: u8 = (rest % 128 + 128) as u8;
        proof {
            assert(varint_bytes(rest as nat) == seq![byte] + varint_bytes((rest / 128) as nat));
            assert(buffer@ + varint_bytes(rest as nat) =~= buffer@.push(byte) + varint_bytes((rest / 128) as nat));
        }
        buffer.push(byte);
        rest = rest / 128;
    }
    proof {
        assert(varint_bytes(rest as nat) == seq![rest as u8]);
    }
    buffer.push(rest as u8);
    assert(buffer@ =~= start + varint_bytes(value as nat));
}

/// What scanning a varint from `start` finds: its length in bytes, the end
/// of the bytes before a final byte, or five bytes that all continue.
pub enum VarintScan {
    Done(nat),
    Truncated,
    Overflow,
}

/// Scans the varint at `start`, having looked at `i` bytes already: it ends
/// at the first byte without the high bit, within five bytes.
pub open spec fn varint_scan(bytes: Seq<u8>, start: int, i: nat) -> VarintScan
    decreases 5 - i,
{
    if i >= 5 {
        VarintScan::Overflow
    } else if start + i >= bytes.len() {
        VarintScan::Truncated
    } else if bytes[start + i] < 128 {
        VarintScan::Done(i + 1)
    } else {
        varint_scan(bytes, start, i + 1)
    }
}

/// The sum of the seven-bit groups of the `n` bytes at `start`, least significant first.
pub open spec fn varint_sum(bytes: Seq<u8>, start: int, n: nat) -> nat
    decreases n,
{
    if n == 0 {
        0
    } else {
        (bytes[start] % 128) as nat + 128 * varint_sum(bytes, start + 1, (n - 1) as nat)
    }
}

/// Why a layout payload could not be read.
pub enum PayloadFailure {
    /// The payload ended before all fields were read.
    Truncated,
    /// A varint ran over five bytes.
    VarintOverflow,
    /// A tower record named an unknown kind.
    UnknownTowerKind(u8),
    /// Bytes remained after the last field.
    Trailing,
}

/// A varint read at `pos`: its value (the group sum modulo 2^32) and the
/// position after it.
pub open spec fn read_varint_at(bytes: Seq<u8>, pos: int) -> Result<(u32, int), PayloadFailure> {
    match varint_scan(bytes, pos, 0) {
        VarintScan::Done(n) => Ok(((varint_sum(bytes, pos, n) % 0x1_0000_0000) as u32, pos + n)),
        VarintScan::Truncated => Err(PayloadFailure::Truncated),
        VarintScan::Overflow => Err(PayloadFailure::VarintOverflow),
    }
}

/// The little-endian bytes of `value`.
pub open spec fn le_bytes(value: u32) -> Seq<u8> {
    seq![
        (value % 0x100) as u8,
        (value / 0x100 % 0x100) as u8,
        (value / 0x1_0000 % 0x100) as u8,
        (value / 0x100_0000) as u8,
    ]
}

/// The little-endian word of the four bytes at `pos`.
pub open spec fn le_word(bytes: Seq<u8>, pos: int) -> u32 {
    (bytes[pos] + bytes[pos + 1] * 0x100 + bytes[pos + 2] * 0x1_0000 + bytes[pos + 3] * 0x100_0000) as u32
}

/// The byte naming tower kind `kind` in a layout payload.
pub open spec fn kind_byte(kind: TowerKind) -> u8 {
    match kind {
        TowerKind::Basic => 0,
    }
}

/// The bytes of one tower record: kind, origin column and origin row.
pub open spec fn tower_record(t: TowerLayoutTower) -> Seq<u8> {
    seq![kind_byte(t.kind)] + varint_bytes(t.origin.column as nat) + varint_bytes(t.origin.row as nat)
}

/// The bytes of the tower records of `towers`, in order.
pub open spec fn tower_records(towers: Seq<TowerLayoutTower>) -> Seq<u8>
    decreases towers.len(),
{
    if towers.len() == 0 {
        Seq::empty()
    } else {
        tower_records(towers.drop_last()) + tower_record(towers.last())
    }
}

/// The payload of a layout: cells per tile, the tile length's bits, the
/// tower count and the tower records.
pub open spec fn payload_bytes(cells_per_tile: u32, tile_length_bits: u32, towers: Seq<TowerLayoutTower>) -> Seq<u8> {
    varint_bytes(cells_per_tile as nat) + le_bytes(tile_length_bits) + varint_bytes(
        (towers.len() % 0x1_0000_0000) as nat,
    ) + tower_records(towers)
}

/// Reads `count` tower records at `pos`: the towers and the position after them.
pub open spec fn read_towers_at(bytes: Seq<u8>, pos: int, count: nat) -> Result<(Seq<TowerLayoutTower>, int), PayloadFailure>
    decreases count,
{
    if count == 0 {
        Ok((Seq::empty(), pos))
    } else {
        match read_towers_at(bytes, pos, (count - 1) as nat) {
            Err(e) => Err(e),
            Ok((towers, p)) => if p >= bytes.len() {
                Err(PayloadFailure::Truncated)
            } else if bytes[p] != 0 {
                Err(PayloadFailure::UnknownTowerKind(bytes[p]))
            } else {
                match read_varint_at(bytes, p + 1) {
                    Err(e) => Err(e),
                    Ok((column, q)) => match read_varint_at(bytes, q) {
                        Err(e) => Err(e),
                        Ok((row, r)) => Ok(
                            (
                                towers.push(
                                    TowerLayoutTower {
                                        kind: TowerKind::Basic,
                                        origin: CellCoord { column, row },
                                    },
                                ),
                                r,
                            ),
                        ),
                    },
                }
            },
        }
    }
}

/// What a layout payload holds: cells per tile, the tile length's bits and
/// the towers, or why it cannot be read.
pub open spec fn read_payload(bytes: Seq<u8>) -> Result<(u32, u32, Seq<TowerLayoutTower>), PayloadFailure> {
    match read_varint_at(bytes, 0) {
        Err(e) => Err(e),
        Ok((cells_per_tile, p)) => if bytes.len() - p < 4 {
            Err(PayloadFailure::Truncated)
        } else {
            let bits = le_word(bytes, p);
            match read_varint_at(bytes, p + 4) {
                Err(e) => Err(e),
                Ok((count, q)) => match read_towers_at(bytes, q, count as nat) {
                    Err(e) => Err(e),
                    Ok((towers, r)) => if r != bytes.len() {
                        Err(PayloadFailure::Trailing)
                    } else {
                        Ok((cells_per_tile, bits, towers))
                    },
                },
            }
        },
    }
}

/// `e` is the error reporting payload failure `f`.
pub open spec fn reports(f: PayloadFailure, e: LayoutTransferError) -> bool {
    match f {
        PayloadFailure::Truncated => e is TruncatedBinaryPayload,
        PayloadFailure::VarintOverflow => e is VarintOverflow,
        PayloadFailure::UnknownTowerKind(b) => e is UnknownTowerKind && e->UnknownTowerKind_0 == b,
        PayloadFailure::Trailing => e is TrailingBinaryData,
    }
}

/// `128` to the power `i`.
pub open spec fn pow128(i: nat) -> nat
    decreases i,
{
    if i == 0 {
        1
    } else {
        128 * pow128((i - 1) as nat)
    }
}

/// Adding one more byte to a group sum adds its group at the next power of 128.
proof fn lemma_varint_sum_step(bytes: Seq<u8>, start: int, i: nat)
    ensures
        varint_sum(bytes, start, i + 1) == varint_sum(bytes, start, i) + (bytes[start + i] % 128) as nat * pow128(
            i,
        ),
    decreases i,
{
    if i > 0 {
        let d = (bytes[start] % 128) as nat;
        let big_d = (bytes[start + i] % 128) as nat;
        let a = varint_sum(bytes, start + 1, (i - 1) as nat);
        let p = pow128((i - 1) as nat);
        lemma_varint_sum_step(bytes, start + 1, (i - 1) as nat);
        assert(start + 1 + (i - 1) == start + i);
        assert(varint_sum(bytes, start + 1, i) == a + big_d * p);
        assert(varint_sum(bytes, start, i + 1) == d + 128 * (a + big_d * p));
        assert(varint_sum(bytes, start, i) == d + 128 * a);
        assert(pow128(i) == 128 * p);
        assert(128 * (big_d * p) == big_d * (128 * p)) by (nonlinear_arith);
        assert(128 * (a + big_d * p) == 128 * a + 128 * (big_d * p));
        assert(big_d * pow128(i) == big_d * (128 * p));
        assert(varint_sum(bytes, start, i + 1) == varint_sum(bytes, start, i) + big_d * pow128(i));
    } else {
        assert(varint_sum(bytes, start + 1, 0) == 0);
        assert(pow128(0) == 1);
        assert(varint_sum(bytes, start, 1) == (bytes[start] % 128) as nat);
        assert(varint_sum(bytes, start, 0) == 0);
        assert(start + i == start);
        assert((bytes[start + i] % 128) as nat * pow128(i) == (bytes[start] % 128) as nat);
    }
}

/// The powers of 128 below the fifth fit in 28 bits.
proof fn lemma_pow128_small(i: nat)
    requires
        i < 4,
    ensures
        pow128(i + 1) <= 0x1000_0000,
{
    reveal_with_fuel(pow128, 5);
}

/// Reads the varint at `cursor`, advancing the cursor past the bytes read.
pub fn decode_varint(bytes: &[u8], cursor: &mut usize) -> (r: Result<u32, LayoutTransferError>)
    ensures
        match read_varint_at(bytes@, *old(cursor) as int) {
            Ok((v, p)) => r is Ok && r->Ok_0 == v && *final(cursor) == p,
            Err(f) => r is Err && reports(f, r->Err_0),
        },
        varint_scan(bytes@, *old(cursor) as int, 0) is Truncated ==> *final(cursor) == if *old(cursor)
            >= bytes@.len() {
            *old(cursor) as int
        } else {
            bytes@.len() as int
        },
        varint_scan(bytes@, *old(cursor) as int, 0) is Overflow ==> *final(cursor) == *old(cursor) + 5,
{
    let ghost start = *cursor as int;
    let mut acc: u64 = 0;
    let mut mult: u64 = 1;
    let mut i: usize = 0;
    while i < 5
        invariant
            i <= 5,
            *cursor == start + i,
            acc == varint_sum(bytes@, start, i as nat),
            mult == pow128(i as nat),
            acc < mult,
            varint_scan(bytes@, start, 0) == varint_scan(bytes@, start, i as nat),
            start == *old(cursor),
            i > 0 ==> start + i <= bytes@.len(),
            mult <= 0x1000_0000,
        decreases 5 - i,
    {
        if *cursor >= bytes.len() {
            return Err(LayoutTransferError::TruncatedBinaryPayload);
        }
        let byte = bytes[*cursor];
        *cursor = *cursor + 1;
        proof {
            lemma_varint_sum_step(bytes@, start, i as nat);
            assert((byte % 128) as nat * pow128(i as nat) <= 127 * pow128(i as nat)) by (nonlinear_arith)
                requires
                    byte % 128 <= 127,
            ;
        }
        acc = acc + (byte % 128) as u64 * mult;
        if byte < 128 {
            return Ok((acc % 0x1_0000_0000) as u32);
        }
        if i == 4 {
            assert(varint_scan(bytes@, start, 5) is Overflow);
            return Err(LayoutTransferError::VarintOverflow);
        }
        proof {
            lemma_pow128_small(i as nat);
        }
        mult = mult * 128;
        i = i + 1;
    }
    Err(LayoutTransferError::VarintOverflow)
}

/// Reads the little-endian word at `cursor`, advancing the cursor by four bytes.
pub fn read_u32(bytes: &[u8], cursor: &mut usize) -> (r: Result<u32, LayoutTransferError>)
    ensures
        bytes@.len() - *old(cursor) < 4 ==> r is Err && r->Err_0 is TruncatedBinaryPayload && *final(cursor)
            == *old(cursor),
        bytes@.len() - *old(cursor) >= 4 ==> r is Ok && r->Ok_0 == le_word(bytes@, *old(cursor) as int)
            && *final(cursor) == *old(cursor) + 4,
{
    if *cursor > bytes.len() || bytes.len() - *cursor < 4 {
        return Err(LayoutTransferError::TruncatedBinaryPayload);
    }
    let p = *cursor;
    let word: u32 = bytes[p] as u32 + bytes[p + 1] as u32 * 0x100 + bytes[p + 2] as u32 * 0x1_0000 + bytes[p + 3] as u32
        * 0x100_0000;
    *cursor = p + 4;
    Ok(word)
}

/// Reads the byte at `cursor`, advancing the cursor by one.
pub fn read_u8(bytes: &[u8], cursor: &mut usize) -> (r: Result<u8, LayoutTransferError>)
    ensures
        *old(cursor) >= bytes@.len() ==> r is Err && r->Err_0 is TruncatedBinaryPayload && *final(cursor)
            == *old(cursor),
        *old(cursor) < bytes@.len() ==> r is Ok && r->Ok_0 == bytes@[*old(cursor) as int] && *final(cursor)
            == *old(cursor) + 1,
{
    if *cursor >= bytes.len() {
        return Err(LayoutTransferError::TruncatedBinaryPayload);
    }
    let byte = bytes[*cursor];
    *cursor = *cursor + 1;
    Ok(byte)
}

/// The byte naming tower kind `kind`.
pub fn encode_tower_kind(kind: TowerKind) -> (b: u8)
    ensures
        b == kind_byte(kind),
{
    match kind {
        TowerKind::Basic => 0,
    }
}

/// The tower kind named by byte `value`; only zero names a kind.
pub fn decode_tower_kind(value: u8) -> (r: Result<TowerKind, LayoutTransferError>)
    ensures
        value == 0 ==> r is Ok && r->Ok_0 == TowerKind::Basic,
        value != 0 ==> r is Err && r->Err_0 is UnknownTowerKind && r->Err_0->UnknownTowerKind_0 == value,
{
    if value == 0 {
        Ok(TowerKind::Basic)
    } else {
        Err(LayoutTransferError::UnknownTowerKind(value))
    }
}

/// Encodes the payload of a layout (see [`payload_bytes`]).
pub fn encode_payload(cells_per_tile: u32, tile_length_bits: u32, towers: &[TowerLayoutTower]) -> (payload: Vec<u8>)
    ensures
        payload@ == payload_bytes(cells_per_tile, tile_length_bits, towers@),
{
    let mut payload: Vec<u8> = Vec::new();
    encode_varint(cells_per_tile, &mut payload);
    payload.push((tile_length_bits % 0x100) as u8);
    payload.push((tile_length_bits / 0x100 % 0x100) as u8);
    payload.push((tile_length_bits / 0x1_0000 % 0x100) as u8);
    payload.push((tile_length_bits / 0x100_0000) as u8);
    let count: u32 = (towers.len() as u64 % 0x1_0000_0000) as u32;
    encode_varint(count, &mut payload);
    let ghost header = payload@;
    assert(header =~= varint_bytes(cells_per_tile as nat) + le_bytes(tile_length_bits) + varint_bytes(
        (towers@.len() % 0x1_0000_0000) as nat,
    ));
    let mut i: usize = 0;
    assert(towers@.take(0) =~= Seq::<TowerLayoutTower>::empty());
    while i < towers.len()
        invariant
            i <= towers@.len(),
            payload@ == header + tower_records(towers@.take(i as int)),
        decreases towers@.len() - i,
    {
        let t = towers[i];
        proof {
            assert(towers@.take(i + 1).drop_last() =~= towers@.take(i as int));
            assert(towers@.take(i + 1).last() == t);
        }
        payload.push(encode_tower_kind(t.kind));
        encode_varint(t.origin.column, &mut payload);
        encode_varint(t.origin.row, &mut payload);
        assert(payload@ =~= header + tower_records(towers@.take(i + 1)));
        i = i + 1;
    }
    assert(towers@.take(towers@.len() as int) =~= towers@);
    payload
}

/// Reads `count` tower records at `cursor` (see [`read_towers_at`]),
/// advancing the cursor past them.
fn decode_towers(bytes: &[u8], cursor: &mut usize, count: u32) -> (r: Result<Vec<TowerLayoutTower>, LayoutTransferError>)
    ensures
        match read_towers_at(bytes@, *old(cursor) as int, count as nat) {
            Ok((towers, p)) => r is Ok && r->Ok_0@ == towers && *final(cursor) == p,
            Err(f) => r is Err && reports(f, r->Err_0),
        },
{
    let ghost q = *cursor as int;
    let mut towers: Vec<TowerLayoutTower> = Vec::new();
    let mut k: u32 = 0;
    while k < count
        invariant
            k <= count,
            q == *old(cursor),
            read_towers_at(bytes@, q, k as nat) is Ok,
            read_towers_at(bytes@, q, k as nat)->Ok_0.0 == towers@,
            read_towers_at(bytes@, q, k as nat)->Ok_0.1 == *cursor as int,
        decreases count - k,
    {
        let ghost before = read_towers_at(bytes@, q, (k + 1) as nat);
        let kind_byte = match read_u8(bytes, cursor) {
            Ok(b) => b,
            Err(e) => {
                proof {
                    lemma_towers_error_persists(bytes@, q, (k + 1) as nat, count as nat);
                }
                return Err(e);
            },
        };
        let kind = match decode_tower_kind(kind_byte) {
            Ok(kind) => kind,
            Err(e) => {
                proof {
                    lemma_towers_error_persists(bytes@, q, (k + 1) as nat, count as nat);
                }
                return Err(e);
            },
        };
        let column = match decode_varint(bytes, cursor) {
            Ok(v) => v,
            Err(e) => {
                proof {
                    lemma_towers_error_persists(bytes@, q, (k + 1) as nat, count as nat);
                }
                return Err(e);
            },
        };
        let row = match decode_varint(bytes, cursor) {
            Ok(v) => v,
            Err(e) => {
                proof {
                    lemma_towers_error_persists(bytes@, q, (k + 1) as nat, count as nat);
                }
                return Err(e);
            },
        };
        towers.push(TowerLayoutTower { kind, origin: CellCoord { column, row } });
        k = k + 1;
    }
    Ok(towers)
}

/// Reads the payload of a layout (see [`read_payload`]).
pub fn decode_payload(bytes: &[u8]) -> (r: Result<(u32, u32, Vec<TowerLayoutTower>), LayoutTransferError>)
    ensures
        match read_payload(bytes@) {
            Ok((cells_per_tile, bits, towers)) => r is Ok && r->Ok_0.0 == cells_per_tile && r->Ok_0.1 == bits
                && r->Ok_0.2@ == towers,
            Err(f) => r is Err && reports(f, r->Err_0),
        },
{
    let mut cursor: usize = 0;
    let cells_per_tile = match decode_varint(bytes, &mut cursor) {
        Ok(v) => v,
        Err(e) => {
            assert(read_varint_at(bytes@, 0) is Err);
            return Err(e);
        },
    };
    let p = cursor;
    let tile_length_bits = match read_u32(bytes, &mut cursor) {
        Ok(v) => v,
        Err(e) => {
            return Err(e);
        },
    };
    let tower_count = match decode_varint(bytes, &mut cursor) {
        Ok(v) => v,
        Err(e) => {
            assert(read_varint_at(bytes@, p + 4) is Err);
            return Err(e);
        },
    };
    let towers = match decode_towers(bytes, &mut cursor, tower_count) {
        Ok(t) => t,
        Err(e) => {
            return Err(e);
        },
    };
    if cursor != bytes.len() {
        return Err(LayoutTransferError::TrailingBinaryData);
    }
    Ok((cells_per_tile, tile_length_bits, towers))
}

/// Once reading some tower record fails, reading more records fails the same way.
proof fn lemma_towers_error_persists(bytes: Seq<u8>, pos: int, k: nat, n: nat)
    requires
        read_towers_at(bytes, pos, k) is Err,
        k <= n,
    ensures
        read_towers_at(bytes, pos, n) == read_towers_at(bytes, pos, k),
    decreases n - k,
{
    if k < n {
        lemma_towers_error_persists(bytes, pos, k, (n - 1) as nat);
    }
}

/// The varint of `v` has at least one byte; every byte but the last has the
/// high bit set and the last does not; a value below `128^k` takes at most `k` bytes.
proof fn lemma_varint_shape(v: nat, k: nat)
    requires
        v < pow128(k),
        k >= 1,
    ensures
        1 <= varint_bytes(v).len() <= k,
        forall|i: int| 0 <= i < varint_bytes(v).len() - 1 ==> #[trigger] varint_bytes(v)[i] >= 128,
        varint_bytes(v)[varint_bytes(v).len() - 1] < 128,
    decreases v,
{
    if k == 0 {
        assert(pow128(0) == 1);
    }
    if v >= 128 {
        assert(pow128(k) == 128 * pow128((k - 1) as nat));
        assert(v / 128 < pow128((k - 1) as nat)) by (nonlinear_arith)
            requires
                v < 128 * pow128((k - 1) as nat),
        ;
        if k == 1 {
            assert(pow128(0) == 1);
            assert(v / 128 >= 1);
        }
        lemma_varint_shape(v / 128, (k - 1) as nat);
        let rest = varint_bytes(v / 128);
        assert(varint_bytes(v) == seq![(v % 128 + 128) as u8] + rest);
        assert forall|i: int| 0 <= i < varint_bytes(v).len() - 1 implies #[trigger] varint_bytes(v)[i] >= 128 by {
            if i > 0 {
                assert(varint_bytes(v)[i] == rest[i - 1]);
            }
        }
    }
}

/// The group sum of the varint bytes of `v` is `v`.
proof fn lemma_varint_sum_of_bytes(v: nat, bytes: Seq<u8>, start: int)
    requires
        0 <= start,
        start + varint_bytes(v).len() <= bytes.len(),
        bytes.subrange(start, start + varint_bytes(v).len()) == varint_bytes(v),
    ensures
        varint_sum(bytes, start, varint_bytes(v).len()) == v,
    decreases v,
{
    let vb = varint_bytes(v);
    assert(bytes[start] == vb[0]) by {
        assert(bytes.subrange(start, start + vb.len())[0] == bytes[start]);
    }
    if v < 128 {
        assert(varint_sum(bytes, start + 1, 0) == 0);
    } else {
        let rest = varint_bytes(v / 128);
        assert(vb == seq![(v % 128 + 128) as u8] + rest);
        assert(bytes.subrange(start + 1, start + 1 + rest.len()) =~= rest) by {
            assert forall|i: int| 0 <= i < rest.len() implies bytes.subrange(start + 1, start + 1 + rest.len())[i]
                == rest[i] by {
                assert(bytes.subrange(start, start + vb.len())[i + 1] == vb[i + 1]);
            }
        }
        lemma_varint_sum_of_bytes(v / 128, bytes, start + 1);
        assert((bytes[start] % 128) as nat == v % 128);
        assert(v % 128 + 128 * (v / 128) == v) by (nonlinear_arith);
    }
}

/// A varint scan that meets continuation bytes up to a final byte at `j` ends there.
proof fn lemma_scan_done(bytes: Seq<u8>, start: int, i: nat, j: nat)
    requires
        i <= j < 5,
        start + j < bytes.len(),
        forall|m: int| start + i <= m < start + j ==> #[trigger] bytes[m] >= 128,
        bytes[start + j] < 128,
    ensures
        varint_scan(bytes, start, i) == VarintScan::Done(j + 1),
    decreases j - i,
{
    if i < j {
        lemma_scan_done(bytes, start, i + 1, j);
    }
}

/// Reading back a written varint yields the value and the position after it.
pub proof fn lemma_read_varint(v: u32, pre: Seq<u8>, post: Seq<u8>)
    ensures
        read_varint_at(pre + varint_bytes(v as nat) + post, pre.len() as int) == Ok::<(u32, int), PayloadFailure>(
            (v, (pre.len() + varint_bytes(v as nat).len()) as int),
        ),
{
    let vb = varint_bytes(v as nat);
    let bytes = pre + vb + post;
    let start = pre.len() as int;
    reveal_with_fuel(pow128, 6);
    lemma_varint_shape(v as nat, 5);
    assert forall|k: int| 0 <= k < vb.len() implies bytes[start + k] == vb[k] by {}
    assert forall|m: int| start <= m < start + vb.len() - 1 implies #[trigger] bytes[m] >= 128 by {
        assert(bytes[start + (m - start)] == vb[m - start]);
    }
    lemma_scan_done(bytes, start, 0, (vb.len() - 1) as nat);
    assert(bytes.subrange(start, start + vb.len()) =~= vb);
    lemma_varint_sum_of_bytes(v as nat, bytes, start);
}

/// The records of two tower lists side by side are the records of their concatenation.
proof fn lemma_records_append(a: Seq<TowerLayoutTower>, b: Seq<TowerLayoutTower>)
    ensures
        tower_records(a + b) == tower_records(a) + tower_records(b),
    decreases b.len(),
{
    if b.len() == 0 {
        assert(a + b =~= a);
        assert(tower_records(a) + Seq::<u8>::empty() =~= tower_records(a));
    } else {
        assert((a + b).drop_last() =~= a + b.drop_last());
        assert((a + b).last() == b.last());
        lemma_records_append(a, b.drop_last());
        assert(tower_records(a) + tower_records(b.drop_last()) + tower_record(b.last()) =~= tower_records(a) + (
        tower_records(b.drop_last()) + tower_record(b.last())));
    }
}

/// Reading back the first `k` written tower records yields those towers.
proof fn lemma_read_towers(towers: Seq<TowerLayoutTower>, pre: Seq<u8>, post: Seq<u8>, k: nat)
    requires
        k <= towers.len(),
    ensures
        read_towers_at(pre + tower_records(towers) + post, pre.len() as int, k) == Ok::<
            (Seq<TowerLayoutTower>, int),
            PayloadFailure,
        >((towers.take(k as int), (pre.len() + tower_records(towers.take(k as int)).len()) as int)),
    decreases k,
{
    let bytes = pre + tower_records(towers) + post;
    if k == 0 {
        assert(towers.take(0) =~= Seq::<TowerLayoutTower>::empty());
    } else {
        lemma_read_towers(towers, pre, post, (k - 1) as nat);
        let head = towers.take(k - 1);
        let t = towers[k - 1];
        let tail = towers.skip(k as int);
        assert(towers =~= head + seq![t] + tail);
        assert(towers.take(k as int) =~= head.push(t));
        assert(seq![t] =~= Seq::<TowerLayoutTower>::empty().push(t));
        assert(seq![t].drop_last() =~= Seq::<TowerLayoutTower>::empty());
        assert(seq![t].last() == t);
        assert(tower_records(seq![t]) == tower_records(Seq::<TowerLayoutTower>::empty()) + tower_record(t));
        assert(tower_records(seq![t]) =~= tower_record(t));
        lemma_records_append(head + seq![t], tail);
        lemma_records_append(head, seq![t]);
        assert(towers.take(k as int).drop_last() =~= head);
        let p = (pre.len() + tower_records(head).len()) as int;
        let c = t.origin.column;
        let r = t.origin.row;
        let rest = tower_records(tail) + post;
        assert(bytes =~= (pre + tower_records(head)) + seq![kind_byte(t.kind)] + varint_bytes(c as nat)
            + varint_bytes(r as nat) + rest);
        assert(bytes[p] == kind_byte(t.kind));
        assert(kind_byte(t.kind) == 0);
        let pre1 = pre + tower_records(head) + seq![kind_byte(t.kind)];
        assert(bytes =~= pre1 + varint_bytes(c as nat) + (varint_bytes(r as nat) + rest));
        lemma_read_varint(c, pre1, varint_bytes(r as nat) + rest);
        let pre2 = pre1 + varint_bytes(c as nat);
        assert(bytes =~= pre2 + varint_bytes(r as nat) + rest);
        lemma_read_varint(r, pre2, rest);
        assert(t == TowerLayoutTower { kind: TowerKind::Basic, origin: CellCoord { column: c, row: r } });
        assert(tower_records(towers.take(k as int)) =~= tower_records(head) + tower_record(t));
    }
}

/// The little-endian word of a word's little-endian bytes is the word.
proof fn lemma_le_round_trip(value: u32, pre: Seq<u8>, post: Seq<u8>)
    ensures
        le_word(pre + le_bytes(value) + post, pre.len() as int) == value,
{
    let bytes = pre + le_bytes(value) + post;
    let p = pre.len() as int;
    assert(bytes[p] == (value % 0x100) as u8);
    assert(bytes[p + 1] == (value / 0x100 % 0x100) as u8);
    assert(bytes[p + 2] == (value / 0x1_0000 % 0x100) as u8);
    assert(bytes[p + 3] == (value / 0x100_0000) as u8);
    assert(value % 0x100 + (value / 0x100 % 0x100) * 0x100 + (value / 0x1_0000 % 0x100) * 0x1_0000 + (value
        / 0x100_0000) * 0x100_0000 == value) by (nonlinear_arith)
        requires
            value < 0x1_0000_0000,
    ;
}

/// Reading back a written payload yields the layout it was written from
/// (for fewer than 2^32 towers, whose count fits the payload's count field).
pub proof fn lemma_payload_round_trip(cells_per_tile: u32, tile_length_bits: u32, towers: Seq<TowerLayoutTower>)
    requires
        towers.len() < 0x1_0000_0000,
    ensures
        read_payload(payload_bytes(cells_per_tile, tile_length_bits, towers)) == Ok::<
            (u32, u32, Seq<TowerLayoutTower>),
            PayloadFailure,
        >((cells_per_tile, tile_length_bits, towers)),
{
    let n = towers.len();
    let cb = varint_bytes(cells_per_tile as nat);
    let lb = le_bytes(tile_length_bits);
    let nb = varint_bytes((n % 0x1_0000_0000) as nat);
    let recs = tower_records(towers);
    let bytes = payload_bytes(cells_per_tile, tile_length_bits, towers);
    assert(bytes =~= Seq::<u8>::empty() + cb + (lb + nb + recs));
    lemma_read_varint(cells_per_tile, Seq::<u8>::empty(), lb + nb + recs);
    let p = cb.len() as int;
    assert(bytes =~= cb + lb + (nb + recs));
    lemma_le_round_trip(tile_length_bits, cb, nb + recs);
    assert(n % 0x1_0000_0000 == n);
    let count = n as u32;
    assert(bytes =~= (cb + lb) + varint_bytes(count as nat) + recs);
    lemma_read_varint(count, cb + lb, recs);
    let q = p + 4 + nb.len();
    assert(bytes =~= (cb + lb + nb) + tower_records(towers) + Seq::<u8>::empty());
    lemma_read_towers(towers, cb + lb + nb, Seq::<u8>::empty(), n);
    assert(towers.take(n as int) =~= towers);
}

/// A written varint of a 32-bit value takes at most five bytes.
pub proof fn lemma_varint_len(v: u32)
    ensures
        1 <= varint_bytes(v as nat).len() <= 5,
{
    reveal_with_fuel(pow128, 6);
    lemma_varint_shape(v as nat, 5);
}

/// A written payload takes at most 14 bytes plus 11 per tower.
pub proof fn lemma_payload_len(cells_per_tile: u32, tile_length_bits: u32, towers: Seq<TowerLayoutTower>)
    ensures
        payload_bytes(cells_per_tile, tile_length_bits, towers).len() <= 14 + 11 * towers.len(),
{
    lemma_varint_len(cells_per_tile);
    lemma_varint_len((towers.len() % 0x1_0000_0000) as u32);
    lemma_records_len(towers);
}

/// Tower records take at most 11 bytes per tower.
proof fn lemma_records_len(towers: Seq<TowerLayoutTower>)
    ensures
        tower_records(towers).len() <= 11 * towers.len(),
    decreases towers.len(),
{
    if towers.len() > 0 {
        lemma_records_len(towers.drop_last());
        lemma_varint_len(towers.last().origin.column);
        lemma_varint_len(towers.last().origin.row);
    }
}

} // verus!
