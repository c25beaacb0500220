//! The legacy layout payload: the compact JSON text of a snapshot, as
//! carried (URL-safe base64 encoded) by `maze:v1` layout strings.
//!
//! The text reads
//! `{"columns":C,"rows":R,"tile_length":T,"cells_per_tile":K,"towers":[...]}`
//! where each tower reads `{"kind":"Basic","origin":{"column":X,"row":Y}}`,
//! towers are separated by commas, numbers are decimal digits, and the tile
//! length `T` is a whole number of at most 2^24 optionally followed by `.0`.

use vstd::prelude::*;
use vstd::arithmetic::power2::{lemma2_to64, lemma_pow2_strictly_increases, lemma_pow2_unfold, pow2};
use crate::core_types::geometry::CellCoord;
use crate::core_types::values::TowerKind;
use super::codec::TowerLayoutTower;
use super::text::{
    all_digits, decimal_chars, digits_of, is_digit, lemma_decimal_round_trip, parse_u32, parse_u32_spec,
};

verus! {

/// The text `{"columns":`.
pub open spec fn columns_word() -> Seq<char> {
    seq!['{', '"', 'c', 'o', 'l', 'u', 'm', 'n', 's', '"', ':']
}

/// The text `,"rows":`.
pub open spec fn rows_word() -> Seq<char> {
    seq![',', '"', 'r', 'o', 'w', 's', '"', ':']
}

/// The text `,"tile_length":`.
pub open spec fn tile_word() -> Seq<char> {
    seq![',', '"', 't', 'i', 'l', 'e', '_', 'l', 'e', 'n', 'g', 't', 'h', '"', ':']
}

/// The text `,"cells_per_tile":`.
pub open spec fn cells_word() -> Seq<char> {
    seq![',', '"', 'c', 'e', 'l', 'l', 's', '_', 'p', 'e', 'r', '_', 't', 'i', 'l', 'e', '"', ':']
}

/// The text `,"towers":[`.
pub open spec fn towers_word() -> Seq<char> {
    seq![',', '"', 't', 'o', 'w', 'e', 'r', 's', '"', ':', '[']
}

/// The text `{"kind":"Basic","origin":{"column":`.
pub open spec fn tower_open_word() -> Seq<char> {
    seq!['{', '"', 'k', 'i', 'n', 'd', '"', ':', '"', 'B', 'a', 's', 'i', 'c', '"', ',', '"', 'o', 'r', 'i', 'g', 'i', 'n', '"', ':', '{', '"', 'c', 'o', 'l', 'u', 'm', 'n', '"', ':']
}

/// The text `,"row":`.
pub open spec fn tower_row_word() -> Seq<char> {
    seq![',', '"', 'r', 'o', 'w', '"', ':']
}

/// The text `}}`.
pub open spec fn tower_close_word() -> Seq<char> {
    seq!['}', '}']
}

/// Whether `s` holds `word` at `pos`.
pub open spec fn has_at(s: Seq<char>, pos: int, word: Seq<char>) -> bool {
    0 <= pos && pos + word.len() <= s.len() && s.subrange(pos, pos + word.len()) == word
}

/// End of the run of decimal digits that starts at `pos`.
pub open spec fn digit_run_end(s: Seq<char>, pos: int) -> int
    decreases s.len() - pos,
{
    if 0 <= pos < s.len() && is_digit(s[pos]) {
        digit_run_end(s, pos + 1)
    } else {
        pos
    }
}

/// The number written at `pos` as decimal digits, at most `u32::MAX`, and
/// the position after it.
#[verifier::opaque]
pub open spec fn number_at(s: Seq<char>, pos: int) -> Option<(u32, int)> {
    let e = digit_run_end(s, pos);
    if e > pos {
        match parse_u32_spec(s.subrange(pos, e)) {
            Some(v) => Some((v, e)),
            None => None,
        }
    } else {
        None
    }
}

/// The bit pattern of the single-precision float equal to the whole number
/// `n`, for `n` up to 2^24: sign clear, biased exponent `127 + e` where
/// `2^e <= n < 2^(e+1)`, and the bits of `n` below its leading one
/// left-aligned in the 23-bit fraction.
pub open spec fn whole_f32_bits(n: nat) -> u32 {
    if n == 0 {
        0
    } else {
        let e = choose|e: nat| #[trigger] pow2(e) <= n < 2 * pow2(e);
        ((127 + e) * 0x80_0000 + (n - pow2(e)) * (0x80_0000nat / pow2(e)) as int) as u32
    }
}

/// The tile length written at `pos`: a whole number of at most 2^24,
/// optionally followed by `.0`; its float bits and the position after it.
#[verifier::opaque]
pub open spec fn tile_length_at(s: Seq<char>, pos: int) -> Option<(u32, int)> {
    match number_at(s, pos) {
        None => None,
        Some((n, e)) => if n > 0x100_0000 {
            None
        } else if has_at(s, e, seq!['.', '0']) {
            Some((whole_f32_bits(n as nat), e + 2))
        } else {
            Some((whole_f32_bits(n as nat), e))
        },
    }
}

/// The tower written at `pos` and the position after it.
#[verifier::opaque]
pub open spec fn tower_at(s: Seq<char>, pos: int) -> Option<(TowerLayoutTower, int)> {
    if !has_at(s, pos, tower_open_word()) {
        None
    } else {
        match number_at(s, pos + tower_open_word().len()) {
            None => None,
            Some((column, p1)) => if !has_at(s, p1, tower_row_word()) {
                None
            } else {
                match number_at(s, p1 + tower_row_word().len()) {
                    None => None,
                    Some((row, p2)) => if !has_at(s, p2, tower_close_word()) {
                        None
                    } else {
                        Some(
                            (
                                TowerLayoutTower { kind: TowerKind::Basic, origin: CellCoord { column, row } },
                                p2 + tower_close_word().len(),
                            ),
                        )
                    },
                }
            },
        }
    }
}

/// The towers listed from `pos` up to the closing `]`, each after the first
/// preceded by a comma (`first` tells whether none was read yet), and the
/// position after the `]`.
#[verifier::opaque]
pub open spec fn tower_list(s: Seq<char>, pos: int, first: bool) -> Option<(Seq<TowerLayoutTower>, int)>
    decreases s.len() - pos,
{
    if has_at(s, pos, seq![']']) {
        Some((Seq::empty(), pos + 1))
    } else {
        let start = if first {
            pos
        } else if has_at(s, pos, seq![',']) {
            pos + 1
        } else {
            -1
        };
        match tower_at(s, start) {
            None => None,
            Some((t, next)) => if pos < next <= s.len() {
                match tower_list(s, next, false) {
                    None => None,
                    Some((rest, end)) => Some((seq![t] + rest, end)),
                }
            } else {
                None
            },
        }
    }
}

/// What the legacy JSON text `s` holds: cells per tile, the tile length's
/// float bits and the towers (the grid dimensions it repeats must be numbers
/// but are not returned: the layout string's own dimensions win).
#[verifier::opaque]
pub open spec fn legacy_layout(s: Seq<char>) -> Option<(u32, u32, Seq<TowerLayoutTower>)> {
    if !has_at(s, 0, columns_word()) {
        None
    } else {
        match number_at(s, columns_word().len() as int) {
            None => None,
            Some((_columns, p1)) => if !has_at(s, p1, rows_word()) {
                None
            } else {
                match number_at(s, p1 + rows_word().len()) {
                    None => None,
                    Some((_rows, p2)) => if !has_at(s, p2, tile_word()) {
                        None
                    } else {
                        match tile_length_at(s, p2 + tile_word().len()) {
                            None => None,
                            Some((bits, p3)) => if !has_at(s, p3, cells_word()) {
                                None
                            } else {
                                match number_at(s, p3 + cells_word().len()) {
                                    None => None,
                                    Some((cells_per_tile, p4)) => if !has_at(s, p4, towers_word()) {
                                        None
                                    } else {
                                        match tower_list(s, p4 + towers_word().len(), true) {
                                            None => None,
                                            Some((towers, p5)) => if has_at(s, p5, seq!['}']) && p5 + 1 == s.len() {
                                                Some((cells_per_tile, bits, towers))
                                            } else {
                                                None
                                            },
                                        }
                                    },
                                }
                            },
                        }
                    },
                }
            },
        }
    }
}

/// The JSON text of tower `t`.
pub open spec fn tower_json(t: TowerLayoutTower) -> Seq<char> {
    tower_open_word() + decimal_chars(t.origin.column as nat) + tower_row_word() + decimal_chars(t.origin.row as nat)
        + tower_close_word()
}

/// The towers `ts`, each preceded by a comma.
pub open spec fn towers_tail(ts: Seq<TowerLayoutTower>) -> Seq<char>
    decreases ts.len(),
{
    if ts.len() == 0 {
        Seq::empty()
    } else {
        seq![','] + tower_json(ts[0]) + towers_tail(ts.drop_first())
    }
}

/// The towers `ts` separated by commas.
pub open spec fn towers_json(ts: Seq<TowerLayoutTower>) -> Seq<char> {
    if ts.len() == 0 {
        Seq::empty()
    } else {
        tower_json(ts[0]) + towers_tail(ts.drop_first())
    }
}

/// The compact JSON text of a layout whose tile length is the whole number
/// `tile_length`, written with a `.0` fraction.
pub open spec fn legacy_json(
    columns: u32,
    rows: u32,
    tile_length: u32,
    cells_per_tile: u32,
    towers: Seq<TowerLayoutTower>,
) -> Seq<char> {
    columns_word() + decimal_chars(columns as nat) + rows_word() + decimal_chars(rows as nat) + tile_word()
        + decimal_chars(tile_length as nat) + seq!['.', '0'] + cells_word() + decimal_chars(cells_per_tile as nat)
        + towers_word() + towers_json(towers) + seq![']', '}']
}

/// A run of digits that stops before a non-digit (or the end) ends there.
proof fn lemma_digit_run_to(s: Seq<char>, pos: int, end: int)
    requires
        0 <= pos <= end <= s.len(),
        forall|k: int| pos <= k < end ==> is_digit(#[trigger] s[k]),
        end == s.len() || !is_digit(s[end]),
    ensures
        digit_run_end(s, pos) == end,
    decreases end - pos,
{
    if pos < end {
        lemma_digit_run_to(s, pos + 1, end);
    }
}

/// `w` stands at the end of `a` in `a + w + c`.
proof fn lemma_word_in(a: Seq<char>, w: Seq<char>, c: Seq<char>)
    ensures
        has_at(a + w + c, a.len() as int, w),
{
    assert((a + w + c).subrange(a.len() as int, (a.len() + w.len()) as int) =~= w);
}

/// The decimal digits of `v`, followed by text that does not start with a
/// digit, read back as `v`.
proof fn lemma_number_in(a: Seq<char>, v: u32, c: Seq<char>)
    requires
        c.len() == 0 || !is_digit(c[0]),
    ensures
        number_at(a + decimal_chars(v as nat) + c, a.len() as int) == Some((v, (a.len() + decimal_chars(v as nat).len()) as int)),
{
    reveal(number_at);
    let d = decimal_chars(v as nat);
    let s = a + d + c;
    lemma_decimal_round_trip(v as nat);
    assert forall|k: int| a.len() <= k < a.len() + d.len() implies is_digit(#[trigger] s[k]) by {
        assert(s[k] == d[k - a.len()]);
    }
    if c.len() > 0 {
        assert(s[(a.len() + d.len()) as int] == c[0]);
    }
    lemma_digit_run_to(s, a.len() as int, (a.len() + d.len()) as int);
    assert(s.subrange(a.len() as int, (a.len() + d.len()) as int) =~= d);
    assert(is_digit(d[0]));
    assert(digits_of(d) == d);
    assert(all_digits(d));
}

/// The JSON text of a tower reads back as the tower.
#[verifier::rlimit(40)]
proof fn lemma_tower_in(a: Seq<char>, t: TowerLayoutTower, c: Seq<char>)
    ensures
        tower_at(a + tower_json(t) + c, a.len() as int) == Some((t, (a.len() + tower_json(t).len()) as int)),
{
    reveal(tower_at);
    let o = tower_open_word();
    let dc = decimal_chars(t.origin.column as nat);
    let rw = tower_row_word();
    let dr = decimal_chars(t.origin.row as nat);
    let cl = tower_close_word();
    let s = a + tower_json(t) + c;
    assert(s =~= a + o + (dc + rw + dr + cl + c));
    lemma_word_in(a, o, dc + rw + dr + cl + c);
    assert(s =~= (a + o) + dc + (rw + dr + cl + c));
    assert((rw + dr + cl + c)[0] == ',');
    lemma_number_in(a + o, t.origin.column, rw + dr + cl + c);
    assert(s =~= (a + o + dc) + rw + (dr + cl + c));
    lemma_word_in(a + o + dc, rw, dr + cl + c);
    assert(s =~= (a + o + dc + rw) + dr + (cl + c));
    assert((cl + c)[0] == '}');
    lemma_number_in(a + o + dc + rw, t.origin.row, cl + c);
    assert(s =~= (a + o + dc + rw + dr) + cl + c);
    lemma_word_in(a + o + dc + rw + dr, cl, c);
    match t.kind {
        TowerKind::Basic => {},
    }
}

/// Towers each preceded by a comma, then a closing bracket, read back as the towers.
proof fn lemma_towers_tail_in(a: Seq<char>, ts: Seq<TowerLayoutTower>, c: Seq<char>)
    requires
        c.len() > 0,
        c[0] == ']',
    ensures
        tower_list(a + towers_tail(ts) + c, a.len() as int, false) == Some((ts, (a.len() + towers_tail(ts).len() + 1) as int)),
    decreases ts.len(),
{
    reveal(tower_list);
    let s = a + towers_tail(ts) + c;
    if ts.len() == 0 {
        assert(s =~= a + seq![']'] + c.drop_first());
        lemma_word_in(a, seq![']'], c.drop_first());
        assert(ts =~= Seq::<TowerLayoutTower>::empty());
    } else {
        let t = ts[0];
        let rest = ts.drop_first();
        let tj = tower_json(t);
        assert(s =~= a + seq![','] + (tj + towers_tail(rest) + c));
        lemma_word_in(a, seq![','], tj + towers_tail(rest) + c);
        assert(s[a.len() as int] == ',');
        assert(!has_at(s, a.len() as int, seq![']'])) by {
            if has_at(s, a.len() as int, seq![']']) {
                assert(s.subrange(a.len() as int, a.len() + 1int)[0] == s[a.len() as int]);
            }
        }
        assert(s =~= (a + seq![',']) + tj + (towers_tail(rest) + c));
        lemma_tower_in(a + seq![','], t, towers_tail(rest) + c);
        assert(s =~= (a + seq![','] + tj) + towers_tail(rest) + c);
        lemma_towers_tail_in(a + seq![','] + tj, rest, c);
        assert(seq![t] + rest =~= ts);
    }
}

/// Towers separated by commas, then a closing bracket, read back as the towers.
proof fn lemma_towers_in(a: Seq<char>, ts: Seq<TowerLayoutTower>, c: Seq<char>)
    requires
        c.len() > 0,
        c[0] == ']',
    ensures
        tower_list(a + towers_json(ts) + c, a.len() as int, true) == Some((ts, (a.len() + towers_json(ts).len() + 1) as int)),
{
    reveal(tower_list);
    let s = a + towers_json(ts) + c;
    if ts.len() == 0 {
        assert(s =~= a + seq![']'] + c.drop_first());
        lemma_word_in(a, seq![']'], c.drop_first());
        assert(ts =~= Seq::<TowerLayoutTower>::empty());
    } else {
        let t = ts[0];
        let rest = ts.drop_first();
        let tj = tower_json(t);
        assert(tj[0] == '{');
        assert(s[a.len() as int] == tj[0]);
        assert(!has_at(s, a.len() as int, seq![']'])) by {
            if has_at(s, a.len() as int, seq![']']) {
                assert(s.subrange(a.len() as int, a.len() + 1int)[0] == s[a.len() as int]);
            }
        }
        assert(s =~= a + tj + (towers_tail(rest) + c));
        lemma_tower_in(a, t, towers_tail(rest) + c);
        assert(s =~= (a + tj) + towers_tail(rest) + c);
        lemma_towers_tail_in(a + tj, rest, c);
        assert(seq![t] + rest =~= ts);
    }
}

/// The compact JSON text of a layout reads back as its cells per tile, the
/// float bits of its tile length and its towers.
pub proof fn lemma_legacy_round_trip(
    columns: u32,
    rows: u32,
    tile_length: u32,
    cells_per_tile: u32,
    towers: Seq<TowerLayoutTower>,
)
    requires
        tile_length <= 0x100_0000,
    ensures
        legacy_layout(legacy_json(columns, rows, tile_length, cells_per_tile, towers)) == Some(
            (cells_per_tile, whole_f32_bits(tile_length as nat), towers),
        ),
{
    let w0 = columns_word();
    let dc = decimal_chars(columns as nat);
    let w1 = rows_word();
    let dr = decimal_chars(rows as nat);
    let w2 = tile_word();
    let dt = decimal_chars(tile_length as nat);
    let pt = seq!['.', '0'];
    let w3 = cells_word();
    let dk = decimal_chars(cells_per_tile as nat);
    let w4 = towers_word();
    let tj = towers_json(towers);
    let end = seq![']', '}'];
    let p1 = w0;
    let p2 = p1 + dc;
    let p3 = p2 + w1;
    let p4 = p3 + dr;
    let p5 = p4 + w2;
    let p6 = p5 + dt;
    let p7 = p6 + pt;
    let p8 = p7 + w3;
    let p9 = p8 + dk;
    let p10 = p9 + w4;
    let p11 = p10 + tj;
    let s = legacy_json(columns, rows, tile_length, cells_per_tile, towers);
    assert(s == p11 + end);
    assert(s.subrange(0, s.len() as int) =~= p11 + end);
    lemma_prefix_of_sum(p11, end, s);
    lemma_prefix_of_sum(p10, tj, s);
    lemma_prefix_of_sum(p9, w4, s);
    lemma_prefix_of_sum(p8, dk, s);
    lemma_prefix_of_sum(p7, w3, s);
    lemma_prefix_of_sum(p6, pt, s);
    lemma_prefix_of_sum(p5, dt, s);
    lemma_prefix_of_sum(p4, w2, s);
    lemma_prefix_of_sum(p3, dr, s);
    lemma_prefix_of_sum(p2, w1, s);
    lemma_prefix_of_sum(p1, dc, s);
    assert(Seq::<char>::empty() + w0 =~= p1);
    lemma_word_after(Seq::<char>::empty(), w0, s);
    assert(s[p2.len() as int] == ',') by {
        assert(s[p2.len() as int] == p3[p2.len() as int]);
    }
    lemma_number_after(p1, columns, s);
    lemma_word_after(p2, w1, s);
    assert(s[p4.len() as int] == ',') by {
        assert(s[p4.len() as int] == p5[p4.len() as int]);
    }
    lemma_number_after(p3, rows, s);
    lemma_word_after(p4, w2, s);
    assert(s[p6.len() as int] == '.') by {
        assert(s[p6.len() as int] == p7[p6.len() as int]);
    }
    lemma_number_after(p5, tile_length, s);
    lemma_word_after(p6, pt, s);
    assert(tile_length_at(s, p5.len() as int) == Some((whole_f32_bits(tile_length as nat), p7.len() as int))) by {
        reveal(tile_length_at);
    }
    lemma_word_after(p7, w3, s);
    assert(s[p9.len() as int] == ',') by {
        assert(s[p9.len() as int] == p10[p9.len() as int]);
    }
    lemma_number_after(p8, cells_per_tile, s);
    lemma_word_after(p9, w4, s);
    lemma_towers_in(p10, towers, end);
    lemma_closing_brace(p11);
    lemma_layout_fields(
        s,
        p2.len() as int,
        p4.len() as int,
        p5.len() as int,
        p7.len() as int,
        p9.len() as int,
        p10.len() as int,
        p11.len() as int + 1,
        columns,
        rows,
        whole_f32_bits(tile_length as nat),
        cells_per_tile,
        towers,
    );
}

/// A text whose fields stand where [`legacy_layout`] looks for them holds
/// the layout those fields give.
proof fn lemma_layout_fields(
    s: Seq<char>,
    after_columns: int,
    after_rows: int,
    tile_at: int,
    after_tile: int,
    after_cells: int,
    towers_at: int,
    after_towers: int,
    columns: u32,
    rows: u32,
    bits: u32,
    cells_per_tile: u32,
    towers: Seq<TowerLayoutTower>,
)
    requires
        has_at(s, 0, columns_word()),
        number_at(s, columns_word().len() as int) == Some((columns, after_columns)),
        has_at(s, after_columns, rows_word()),
        number_at(s, after_columns + rows_word().len()) == Some((rows, after_rows)),
        has_at(s, after_rows, tile_word()),
        tile_at == after_rows + tile_word().len(),
        tile_length_at(s, tile_at) == Some((bits, after_tile)),
        has_at(s, after_tile, cells_word()),
        number_at(s, after_tile + cells_word().len()) == Some((cells_per_tile, after_cells)),
        has_at(s, after_cells, towers_word()),
        towers_at == after_cells + towers_word().len(),
        tower_list(s, towers_at, true) == Some((towers, after_towers)),
        has_at(s, after_towers, seq!['}']),
        after_towers + 1 == s.len(),
    ensures
        legacy_layout(s) == Some((cells_per_tile, bits, towers)),
{
    reveal(legacy_layout);
}

/// The closing brace of `p` followed by `]}` stands right after the bracket.
proof fn lemma_closing_brace(p: Seq<char>)
    ensures
        has_at(p + seq![']', '}'], p.len() + 1int, seq!['}']),
{
    assert((p + seq![']', '}']).subrange(p.len() + 1int, p.len() + 2int) =~= seq!['}']);
}

/// A text that is `x + y`, or begins with it, begins with `x`.
proof fn lemma_prefix_of_sum(x: Seq<char>, y: Seq<char>, s: Seq<char>)
    requires
        x.len() + y.len() <= s.len(),
        s.subrange(0, (x.len() + y.len()) as int) == x + y,
    ensures
        s.subrange(0, x.len() as int) == x,
{
    assert forall|i: int| 0 <= i < x.len() implies #[trigger] s.subrange(0, x.len() as int)[i] == x[i] by {
        assert(s.subrange(0, (x.len() + y.len()) as int)[i] == s[i]);
        assert((x + y)[i] == x[i]);
    }
    assert(s.subrange(0, x.len() as int) =~= x);
}

/// In a text that begins with `pre + w`, `w` stands at the end of `pre`.
proof fn lemma_word_after(pre: Seq<char>, w: Seq<char>, s: Seq<char>)
    requires
        pre.len() + w.len() <= s.len(),
        s.subrange(0, (pre.len() + w.len()) as int) == pre + w,
    ensures
        has_at(s, pre.len() as int, w),
{
    assert forall|i: int| 0 <= i < w.len() implies #[trigger] s.subrange(
        pre.len() as int,
        (pre.len() + w.len()) as int,
    )[i] == w[i] by {
        assert(s.subrange(0, (pre.len() + w.len()) as int)[pre.len() + i] == s[pre.len() + i]);
        assert((pre + w)[pre.len() + i] == w[i]);
    }
    assert(s.subrange(pre.len() as int, (pre.len() + w.len()) as int) =~= w);
}

/// In a text that begins with `pre` and the decimal digits of `v`, followed
/// by the end or a non-digit, the number at the end of `pre` is `v`.
proof fn lemma_number_after(pre: Seq<char>, v: u32, s: Seq<char>)
    requires
        pre.len() + decimal_chars(v as nat).len() <= s.len(),
        s.subrange(0, (pre.len() + decimal_chars(v as nat).len()) as int) == pre + decimal_chars(v as nat),
        pre.len() + decimal_chars(v as nat).len() == s.len() || !is_digit(
            s[(pre.len() + decimal_chars(v as nat).len()) as int],
        ),
    ensures
        number_at(s, pre.len() as int) == Some((v, (pre.len() + decimal_chars(v as nat).len()) as int)),
{
    reveal(number_at);
    let d = decimal_chars(v as nat);
    let n = pre.len() as int;
    let m = (pre.len() + d.len()) as int;
    lemma_decimal_round_trip(v as nat);
    lemma_word_after(pre, d, s);
    assert forall|k: int| n <= k < m implies is_digit(#[trigger] s[k]) by {
        assert(s.subrange(n, m)[k - n] == s[k]);
        assert(is_digit(d[k - n]));
    }
    lemma_digit_run_to(s, n, m);
    assert(is_digit(d[0]));
    assert(digits_of(d) == d);
    assert(all_digits(d));
}

/// The text `{"columns":`.
fn columns_word_chars() -> (r: Vec<char>)
    ensures
        r@ == columns_word(),
{
    let r: Vec<char> = vec!['{', '"', 'c', 'o', 'l', 'u', 'm', 'n', 's', '"', ':'];
    assert(r@ =~= columns_word());
    r
}

/// The text `,"rows":`.
fn rows_word_chars() -> (r: Vec<char>)
    ensures
        r@ == rows_word(),
{
    let r: Vec<char> = vec![',', '"', 'r', 'o', 'w', 's', '"', ':'];
    assert(r@ =~= rows_word());
    r
}

/// The text `,"tile_length":`.
fn tile_word_chars() -> (r: Vec<char>)
    ensures
        r@ == tile_word(),
{
    let r: Vec<char> = vec![',', '"', 't', 'i', 'l', 'e', '_', 'l', 'e', 'n', 'g', 't', 'h', '"', ':'];
    assert(r@ =~= tile_word());
    r
}

/// The text `,"cells_per_tile":`.
fn cells_word_chars() -> (r: Vec<char>)
    ensures
        r@ == cells_word(),
{
    let r: Vec<char> = vec![',', '"', 'c', 'e', 'l', 'l', 's', '_', 'p', 'e', 'r', '_', 't', 'i', 'l', 'e', '"', ':'];
    assert(r@ =~= cells_word());
    r
}

/// The text `,"towers":[`.
fn towers_word_chars() -> (r: Vec<char>)
    ensures
        r@ == towers_word(),
{
    let r: Vec<char> = vec![',', '"', 't', 'o', 'w', 'e', 'r', 's', '"', ':', '['];
    assert(r@ =~= towers_word());
    r
}

/// The text `{"kind":"Basic","origin":{"column":`.
fn tower_open_word_chars() -> (r: Vec<char>)
    ensures
        r@ == tower_open_word(),
{
    let r: Vec<char> = vec!['{', '"', 'k', 'i', 'n', 'd', '"', ':', '"', 'B', 'a', 's', 'i', 'c', '"', ',', '"', 'o', 'r', 'i', 'g', 'i', 'n', '"', ':', '{', '"', 'c', 'o', 'l', 'u', 'm', 'n', '"', ':'];
    assert(r@ =~= tower_open_word());
    r
}

/// The text `,"row":`.
fn tower_row_word_chars() -> (r: Vec<char>)
    ensures
        r@ == tower_row_word(),
{
    let r: Vec<char> = vec![',', '"', 'r', 'o', 'w', '"', ':'];
    assert(r@ =~= tower_row_word());
    r
}

/// The text `}}`.
fn tower_close_word_chars() -> (r: Vec<char>)
    ensures
        r@ == tower_close_word(),
{
    let r: Vec<char> = vec!['}', '}'];
    assert(r@ =~= tower_close_word());
    r
}

/// Whether `chars` holds `word` at `pos`.
fn has_word_at(chars: &Vec<char>, pos: usize, word: &[char]) -> (b: bool)
    requires
        pos <= chars@.len(),
    ensures
        b == has_at(chars@, pos as int, word@),
{
    let len = chars.len();
    if word.len() > len - pos {
        return false;
    }
    let mut i: usize = 0;
    while i < word.len()
        invariant
            len == chars@.len(),
            i <= word@.len(),
            pos + word@.len() <= chars@.len(),
            forall|k: int| 0 <= k < i ==> chars@[pos + k] == word@[k],
        decreases word@.len() - i,
    {
        if chars[pos + i] != word[i] {
            assert(chars@.subrange(pos as int, pos + word@.len())[i as int] != word@[i as int]);
            return false;
        }
        i = i + 1;
    }
    assert(chars@.subrange(pos as int, pos + word@.len()) =~= word@);
    true
}

/// Whether `c` is an ASCII decimal digit.
fn char_is_digit(c: char) -> (b: bool)
    ensures
        b == is_digit(c),
{
    let code = c as u32;
    0x30 <= code && code <= 0x39
}

/// End of the run of decimal digits that starts at `pos` (see [`digit_run_end`]).
fn digit_run(chars: &Vec<char>, pos: usize) -> (e: usize)
    requires
        pos <= chars@.len(),
    ensures
        e == digit_run_end(chars@, pos as int),
        pos <= e <= chars@.len(),
{
    let mut i: usize = pos;
    while i < chars.len() && char_is_digit(chars[i])
        invariant
            pos <= i <= chars@.len(),
            digit_run_end(chars@, pos as int) == digit_run_end(chars@, i as int),
        decreases chars@.len() - i,
    {
        assert(is_digit(chars@[i as int]));
        i = i + 1;
    }
    proof {
        if i < chars@.len() {
            assert(!is_digit(chars@[i as int]));
        }
    }
    i
}

/// The number written at `pos` (see [`number_at`]).
fn read_number(chars: &Vec<char>, pos: usize) -> (r: Option<(u32, usize)>)
    requires
        pos <= chars@.len(),
    ensures
        match number_at(chars@, pos as int) {
            None => r is None,
            Some((v, e)) => r == Some((v, e as usize)) && pos < e <= chars@.len(),
        },
{
    reveal(number_at);
    let e = digit_run(chars, pos);
    if e == pos {
        return None;
    }
    match parse_u32(chars, pos, e) {
        Some(v) => Some((v, e)),
        None => None,
    }
}

/// `2^e` is the only power of two with `2^e <= n < 2^(e+1)`.
proof fn lemma_leading_power_unique(n: nat, e: nat, f: nat)
    requires
        pow2(e) <= n < 2 * pow2(e),
        pow2(f) <= n < 2 * pow2(f),
    ensures
        e == f,
{
    if e < f {
        lemma_pow2_unfold(e + 1);
        if e + 1 < f {
            lemma_pow2_strictly_increases(e + 1, f);
        }
    } else if f < e {
        lemma_pow2_unfold(f + 1);
        if f + 1 < e {
            lemma_pow2_strictly_increases(f + 1, e);
        }
    }
}

/// The float bits of a whole number of at most 2^24 (see [`whole_f32_bits`]).
pub fn whole_number_f32_bits(n: u32) -> (r: u32)
    requires
        n <= 0x100_0000,
    ensures
        r == whole_f32_bits(n as nat),
{
    if n == 0 {
        return 0;
    }
    let mut p: u32 = 1;
    let mut e: u32 = 0;
    proof {
        lemma2_to64();
    }
    while p <= n / 2
        invariant
            1 <= p <= n,
            n <= 0x100_0000,
            p == pow2(e as nat),
            e <= 24,
        decreases n - p,
    {
        proof {
            lemma_pow2_unfold((e + 1) as nat);
            lemma2_to64();
        }
        p = p * 2;
        e = e + 1;
    }
    proof {
        let f = choose|f: nat| #[trigger] pow2(f) <= n < 2 * pow2(f);
        assert(pow2(e as nat) <= n < 2 * pow2(e as nat));
        lemma_leading_power_unique(n as nat, e as nat, f);
    }
    let scale: u32 = 0x80_0000 / p;
    assert((n - p) * scale <= 0x80_0000) by (nonlinear_arith)
        requires
            n - p < p,
            p > 0,
            scale == 0x80_0000u32 / p,
    ;
    (127 + e) * 0x80_0000 + (n - p) * scale
}

/// The tile length written at `pos` (see [`tile_length_at`]).
fn read_tile_length(chars: &Vec<char>, pos: usize) -> (r: Option<(u32, usize)>)
    requires
        pos <= chars@.len(),
    ensures
        match tile_length_at(chars@, pos as int) {
            None => r is None,
            Some((bits, e)) => r == Some((bits, e as usize)) && pos < e <= chars@.len(),
        },
{
    reveal(tile_length_at);
    let len = chars.len();
    let (n, e) = match read_number(chars, pos) {
        Some(x) => x,
        None => {
            return None;
        },
    };
    if n > 0x100_0000 {
        return None;
    }
    let bits = whole_number_f32_bits(n);
    let point: Vec<char> = vec!['.', '0'];
    assert(point@ =~= seq!['.', '0']);
    if has_word_at(chars, e, point.as_slice()) {
        Some((bits, e + 2))
    } else {
        Some((bits, e))
    }
}

/// The tower written at `pos` (see [`tower_at`]).
fn read_tower(chars: &Vec<char>, pos: usize) -> (r: Option<(TowerLayoutTower, usize)>)
    requires
        pos <= chars@.len(),
    ensures
        match tower_at(chars@, pos as int) {
            None => r is None,
            Some((t, e)) => r == Some((t, e as usize)) && pos < e <= chars@.len(),
        },
{
    reveal(tower_at);
    let len = chars.len();
    let open = tower_open_word_chars();
    if !has_word_at(chars, pos, open.as_slice()) {
        return None;
    }
    assert(pos + open@.len() <= chars@.len());
    let (column, p1) = match read_number(chars, pos + open.len()) {
        Some(x) => x,
        None => {
            return None;
        },
    };
    let row_word = tower_row_word_chars();
    if !has_word_at(chars, p1, row_word.as_slice()) {
        return None;
    }
    let (row, p2) = match read_number(chars, p1 + row_word.len()) {
        Some(x) => x,
        None => {
            return None;
        },
    };
    let close = tower_close_word_chars();
    if !has_word_at(chars, p2, close.as_slice()) {
        return None;
    }
    Some((TowerLayoutTower { kind: TowerKind::Basic, origin: CellCoord { column, row } }, p2 + close.len()))
}

/// `r` with `acc` put in front of the towers it found.
pub open spec fn after_towers(
    acc: Seq<TowerLayoutTower>,
    r: Option<(Seq<TowerLayoutTower>, int)>,
) -> Option<(Seq<TowerLayoutTower>, int)> {
    match r {
        None => None,
        Some((rest, end)) => Some((acc + rest, end)),
    }
}

/// The tower list that starts at `pos` (see [`tower_list`]).
fn read_tower_list(chars: &Vec<char>, pos: usize) -> (r: Option<(Vec<TowerLayoutTower>, usize)>)
    requires
        pos <= chars@.len(),
    ensures
        match tower_list(chars@, pos as int, true) {
            None => r is None,
            Some((towers, e)) => r matches Some((found, end)) && found@ == towers && end == e && e <= chars@.len(),
        },
{
    reveal(tower_list);
    reveal(tower_at);
    let len = chars.len();
    let close: Vec<char> = vec![']'];
    assert(close@ =~= seq![']']);
    let comma: Vec<char> = vec![','];
    assert(comma@ =~= seq![',']);
    let mut towers: Vec<TowerLayoutTower> = Vec::new();
    let mut p: usize = pos;
    let mut first: bool = true;
    assert(towers@ + Seq::<TowerLayoutTower>::empty() =~= Seq::<TowerLayoutTower>::empty());
    loop
        invariant
            p <= chars@.len(),
            len == chars@.len(),
            close@ == seq![']'],
            comma@ == seq![','],
            tower_list(chars@, pos as int, true) == after_towers(towers@, tower_list(chars@, p as int, first)),
        decreases chars@.len() - p,
    {
        proof {
            reveal(tower_at);
            reveal(tower_list);
        }
        if has_word_at(chars, p, close.as_slice()) {
            assert(towers@ + Seq::<TowerLayoutTower>::empty() =~= towers@);
            return Some((towers, p + 1));
        }
        let start: usize = if first {
            p
        } else if has_word_at(chars, p, comma.as_slice()) {
            p + 1
        } else {
            return None;
        };
        match read_tower(chars, start) {
            None => {
                return None;
            },
            Some((t, next)) => {
                proof {
                    let ghost inner = tower_list(chars@, next as int, false);
                    if let Some((rest, end)) = inner {
                        assert(towers@ + (seq![t] + rest) =~= towers@.push(t) + rest);
                    }
                }
                towers.push(t);
                p = next;
                first = false;
            },
        }
    }
}

/// Reads the legacy JSON text `chars` (see [`legacy_layout`]).
pub fn read_legacy_layout(chars: &Vec<char>) -> (r: Option<(u32, u32, Vec<TowerLayoutTower>)>)
    ensures
        match legacy_layout(chars@) {
            None => r is None,
            Some((cells_per_tile, bits, towers)) => r matches Some((k, b, found)) && k == cells_per_tile && b == bits
                && found@ == towers,
        },
{
    reveal(legacy_layout);
    let len = chars.len();
    let w = columns_word_chars();
    if !has_word_at(chars, 0, w.as_slice()) {
        return None;
    }
    let (_columns, p1) = match read_number(chars, w.len()) {
        Some(x) => x,
        None => {
            return None;
        },
    };
    let w = rows_word_chars();
    if !has_word_at(chars, p1, w.as_slice()) {
        return None;
    }
    let (_rows, p2) = match read_number(chars, p1 + w.len()) {
        Some(x) => x,
        None => {
            return None;
        },
    };
    let w = tile_word_chars();
    if !has_word_at(chars, p2, w.as_slice()) {
        return None;
    }
    let (bits, p3) = match read_tile_length(chars, p2 + w.len()) {
        Some(x) => x,
        None => {
            return None;
        },
    };
    let w = cells_word_chars();
    if !has_word_at(chars, p3, w.as_slice()) {
        return None;
    }
    let (cells_per_tile, p4) = match read_number(chars, p3 + w.len()) {
        Some(x) => x,
        None => {
            return None;
        },
    };
    let w = towers_word_chars();
    if !has_word_at(chars, p4, w.as_slice()) {
        return None;
    }
    let (towers, p5) = match read_tower_list(chars, p4 + w.len()) {
        Some(x) => x,
        None => {
            return None;
        },
    };
    let end: Vec<char> = vec!['}'];
    assert(end@ =~= seq!['}']);
    if has_word_at(chars, p5, end.as_slice()) && p5 + 1 == chars.len() {
        Some((cells_per_tile, bits, towers))
    } else {
        None
    }
}

} // verus!
