//! Tower layout snapshots and their single-line text form
//! `maze:v2:<columns>x<rows>:<base64 payload>`; legacy `maze:v1` strings,
//! whose base64 payload is the snapshot's JSON text, are read too.

use vstd::prelude::*;
use vstd::string::StrSliceExecFns;
use vstd::utf8::encode_utf8;
use super::base64_text::{decode_url_safe, encode_url_safe, is_url_safe_symbol, url_safe_bytes, url_safe_text};
use super::codec::{
    decode_payload, encode_payload, lemma_payload_len, lemma_payload_round_trip, payload_bytes, read_payload, reports, PayloadFailure,
    TowerLayoutTower,
};
use super::error::LayoutTransferError;
use super::legacy::{legacy_layout, read_legacy_layout};
use super::text::{
    all_digits, decimal_chars, decimal_value, digits_of, find_char, first_index, is_digit, is_space,
    lemma_decimal_round_trip, lemma_first_index, lemma_leading_spaces, lemma_trailing_spaces, parse_u32,
    parse_u32_spec, push_decimal, split_fields, trim_bounds, trimmed, chars_of, chars_to_string,
};

verus! {

/// Prefix of every layout string: the domain and the format version.
pub const SNAPSHOT_HEADER_V2: &'static str = "maze:v2";

/// Snapshot of the towers placed within the maze and the grid configuration.
#[derive(Clone, Debug, PartialEq, Eq)]
pub struct TowerLayoutSnapshot {
    /// Number of tile columns contained in the grid.
    pub columns: u32,
    /// Number of tile rows contained in the grid.
    pub rows: u32,
    /// Bit pattern of the tile edge length in world units.
    pub tile_length_bits: u32,
    /// Number of cells rendered along each tile edge.
    pub cells_per_tile: u32,
    /// Towers composing the layout captured by the snapshot.
    pub towers: Vec<TowerLayoutTower>,
}

/// The prefix of every layout string.
pub open spec fn header() -> Seq<char> {
    seq!['m', 'a', 'z', 'e', ':', 'v', '2']
}

/// The characters of ASCII text.
pub open spec fn text_chars(text: Seq<u8>) -> Seq<char> {
    text.map_values(|b: u8| b as char)
}

/// The layout string of a grid of `columns` by `rows` tiles whose payload's
/// base64 text is `payload_text`.
pub open spec fn layout_text(columns: u32, rows: u32, payload_text: Seq<u8>) -> Seq<char> {
    header() + seq![':'] + decimal_chars(columns as nat) + seq!['x'] + decimal_chars(rows as nat) + seq![':']
        + text_chars(payload_text)
}

/// Position of the first `x` or `X` in `s`, if any.
pub open spec fn first_x(s: Seq<char>) -> Option<int>
    decreases s.len(),
{
    if s.len() == 0 {
        None
    } else if s[0] == 'x' || s[0] == 'X' {
        Some(0)
    } else {
        match first_x(s.subrange(1, s.len() as int)) {
            Some(i) => Some(i + 1),
            None => None,
        }
    }
}

/// The grid dimensions written as `<columns>x<rows>` (either letter case,
/// white space around each number allowed), both positive.
pub open spec fn dimensions_of(s: Seq<char>) -> Option<(u32, u32)> {
    match first_x(s) {
        None => None,
        Some(i) => match (
            parse_u32_spec(trimmed(s.subrange(0, i))),
            parse_u32_spec(trimmed(s.subrange(i + 1, s.len() as int))),
        ) {
            (Some(columns), Some(rows)) => if columns == 0 || rows == 0 {
                None
            } else {
                Some((columns, rows))
            },
            _ => None,
        },
    }
}

/// What reading a layout string finds.
pub enum LayoutReading {
    Empty,
    MissingVersion,
    MissingDimensions,
    MissingPayload,
    BadPrefix(Seq<char>),
    BadDimensions(Seq<char>),
    BadVersion(Seq<char>),
    BadEncoding,
    BadPayload(PayloadFailure),
    BadLegacyPayload,
    Layout(u32, u32, u32, u32, Seq<TowerLayoutTower>),
}

/// Reads the layout string `text`: trimmed of white space, it holds the
/// fields `maze`, the version, the dimensions and the base64 payload
/// separated by colons (further fields are ignored). The prefix is checked
/// first, then the dimensions, then the version: `v2` carries the binary
/// payload, legacy `v1` the JSON text (see [`legacy_layout`]), whose grid
/// size gives way to the string's own dimensions.
pub open spec fn reading(text: Seq<char>) -> LayoutReading {
    let t = trimmed(text);
    let parts = split_fields(t, ':');
    if t.len() == 0 {
        LayoutReading::Empty
    } else if parts.len() < 2 {
        LayoutReading::MissingVersion
    } else if parts.len() < 3 {
        LayoutReading::MissingDimensions
    } else if parts.len() < 4 {
        LayoutReading::MissingPayload
    } else if parts[0] != seq!['m', 'a', 'z', 'e'] {
        LayoutReading::BadPrefix(parts[0])
    } else {
        match dimensions_of(parts[2]) {
            None => LayoutReading::BadDimensions(parts[2]),
            Some((columns, rows)) => if parts[1] == seq!['v', '1'] {
                match url_safe_bytes(encode_utf8(parts[3])) {
                    None => LayoutReading::BadEncoding,
                    Some(bytes) => match legacy_layout(text_chars(bytes)) {
                        None => LayoutReading::BadLegacyPayload,
                        Some((cells_per_tile, bits, towers)) => LayoutReading::Layout(
                            columns,
                            rows,
                            bits,
                            cells_per_tile,
                            towers,
                        ),
                    },
                }
            } else if parts[1] != seq!['v', '2'] {
                LayoutReading::BadVersion(parts[1])
            } else {
                match url_safe_bytes(encode_utf8(parts[3])) {
                    None => LayoutReading::BadEncoding,
                    Some(bytes) => match read_payload(bytes) {
                        Err(f) => LayoutReading::BadPayload(f),
                        Ok((cells_per_tile, bits, towers)) => LayoutReading::Layout(
                            columns,
                            rows,
                            bits,
                            cells_per_tile,
                            towers,
                        ),
                    },
                }
            },
        }
    }
}

/// `r` is what decoding reports for the reading `d`.
pub open spec fn reports_reading(r: Result<TowerLayoutSnapshot, LayoutTransferError>, d: LayoutReading) -> bool {
    match d {
        LayoutReading::Empty => r is Err && r->Err_0 is EmptyPayload,
        LayoutReading::MissingVersion => r is Err && r->Err_0 is MissingVersion,
        LayoutReading::MissingDimensions => r is Err && r->Err_0 is MissingDimensions,
        LayoutReading::MissingPayload => r is Err && r->Err_0 is MissingPayload,
        LayoutReading::BadPrefix(s) => r is Err && r->Err_0 is InvalidPrefix && r->Err_0->InvalidPrefix_0@ == s,
        LayoutReading::BadDimensions(s) => r is Err && r->Err_0 is InvalidDimensions
            && r->Err_0->InvalidDimensions_0@ == s,
        LayoutReading::BadVersion(s) => r is Err && r->Err_0 is UnsupportedVersion
            && r->Err_0->UnsupportedVersion_0@ == s,
        LayoutReading::BadEncoding => r is Err && r->Err_0 is InvalidEncoding,
        LayoutReading::BadPayload(f) => r is Err && reports(f, r->Err_0),
        LayoutReading::BadLegacyPayload => r is Err && r->Err_0 is InvalidLegacyPayload,
        LayoutReading::Layout(columns, rows, bits, cells_per_tile, towers) => {
            &&& r is Ok
            &&& r->Ok_0.columns == columns
            &&& r->Ok_0.rows == rows
            &&& r->Ok_0.tile_length_bits == bits
            &&& r->Ok_0.cells_per_tile == cells_per_tile
            &&& r->Ok_0.towers@ == towers
        },
    }
}

/// The characters `chars[from..to]`.
pub(crate) fn slice_chars(chars: &Vec<char>, from: usize, to: usize) -> (r: Vec<char>)
    requires
        from <= to <= chars@.len(),
    ensures
        r@ == chars@.subrange(from as int, to as int),
{
    let mut out: Vec<char> = Vec::new();
    let mut i: usize = from;
    while i < to
        invariant
            from <= i <= to,
            to <= chars@.len(),
            out@ == chars@.subrange(from as int, i as int),
        decreases to - i,
    {
        out.push(chars[i]);
        i = i + 1;
        assert(out@ =~= chars@.subrange(from as int, i as int));
    }
    out
}

/// Position of the first `x` or `X` in `chars`, or its length when none.
pub(crate) fn find_x(chars: &Vec<char>) -> (r: usize)
    ensures
        r <= chars@.len(),
        r < chars@.len() ==> first_x(chars@) == Some(r as int),
        r == chars@.len() ==> first_x(chars@) is None,
{
    let mut i: usize = 0;
    while i < chars.len() && chars[i] != 'x' && chars[i] != 'X'
        invariant
            i <= chars@.len(),
            forall|k: int| 0 <= k < i ==> #[trigger] chars@[k] != 'x' && chars@[k] != 'X',
        decreases chars@.len() - i,
    {
        i = i + 1;
    }
    proof {
        lemma_first_x(chars@, i as int);
    }
    i
}

/// The first `x` or `X` is found by scanning from the start.
proof fn lemma_first_x(s: Seq<char>, i: int)
    requires
        0 <= i <= s.len(),
        forall|k: int| 0 <= k < i ==> #[trigger] s[k] != 'x' && s[k] != 'X',
        i == s.len() || s[i] == 'x' || s[i] == 'X',
    ensures
        i < s.len() ==> first_x(s) == Some(i),
        i == s.len() ==> first_x(s) is None,
    decreases i,
{
    if i > 0 {
        let rest = s.subrange(1, s.len() as int);
        assert forall|k: int| 0 <= k < i - 1 implies #[trigger] rest[k] != 'x' && rest[k] != 'X' by {
            assert(rest[k] == s[k + 1]);
        }
        if i < s.len() {
            assert(rest[i - 1] == s[i]);
        }
        lemma_first_x(rest, i - 1);
    }
}

/// Reads a trimmed decimal number from `chars`.
pub(crate) fn parse_trimmed(chars: &Vec<char>) -> (r: Option<u32>)
    ensures
        r == parse_u32_spec(trimmed(chars@)),
{
    let (lo, hi) = trim_bounds(chars);
    parse_u32(chars, lo, hi)
}

/// Parses grid dimensions written as `<columns>x<rows>` (see [`dimensions_of`]).
pub fn parse_dimensions(dimensions: &str) -> (r: Result<(u32, u32), LayoutTransferError>)
    ensures
        match dimensions_of(dimensions@) {
            Some(d) => r is Ok && r->Ok_0 == d,
            None => r is Err && r->Err_0 is InvalidDimensions && r->Err_0->InvalidDimensions_0@ == dimensions@,
        },
{
    let chars = chars_of(dimensions);
    let split = find_x(&chars);
    if split == chars.len() {
        return Err(LayoutTransferError::InvalidDimensions(dimensions.to_owned()));
    }
    let left = slice_chars(&chars, 0, split);
    let right = slice_chars(&chars, split + 1, chars.len());
    let columns = match parse_trimmed(&left) {
        Some(v) => v,
        None => {
            return Err(LayoutTransferError::InvalidDimensions(dimensions.to_owned()));
        },
    };
    let rows = match parse_trimmed(&right) {
        Some(v) => v,
        None => {
            return Err(LayoutTransferError::InvalidDimensions(dimensions.to_owned()));
        },
    };
    if columns == 0 || rows == 0 {
        return Err(LayoutTransferError::InvalidDimensions(dimensions.to_owned()));
    }
    Ok((columns, rows))
}

/// Decodes the base64 payload of a layout string for a grid of `columns` by `rows` tiles.
fn decode_v2(columns: u32, rows: u32, payload: &str) -> (r: Result<TowerLayoutSnapshot, LayoutTransferError>)
    ensures
        match url_safe_bytes(encode_utf8(payload@)) {
            None => r is Err && r->Err_0 is InvalidEncoding,
            Some(bytes) => match read_payload(bytes) {
                Err(f) => r is Err && reports(f, r->Err_0),
                Ok((cells_per_tile, bits, towers)) => r is Ok && r->Ok_0.columns == columns && r->Ok_0.rows == rows
                    && r->Ok_0.tile_length_bits == bits && r->Ok_0.cells_per_tile == cells_per_tile
                    && r->Ok_0.towers@ == towers,
            },
        },
{
    let bytes = match decode_url_safe(payload.as_bytes()) {
        Ok(b) => b,
        Err(e) => {
            return Err(LayoutTransferError::InvalidEncoding(e));
        },
    };
    match decode_payload(bytes.as_slice()) {
        Ok((cells_per_tile, tile_length_bits, towers)) => Ok(
            TowerLayoutSnapshot { columns, rows, tile_length_bits, cells_per_tile, towers },
        ),
        Err(e) => Err(e),
    }
}

/// The characters of ASCII text, one per byte.
fn text_chars_of(bytes: &Vec<u8>) -> (chars: Vec<char>)
    ensures
        chars@ == text_chars(bytes@),
{
    let mut chars: Vec<char> = Vec::new();
    let mut i: usize = 0;
    while i < bytes.len()
        invariant
            i <= bytes@.len(),
            chars@ == text_chars(bytes@.subrange(0, i as int)),
        decreases bytes@.len() - i,
    {
        chars.push(bytes[i] as char);
        i = i + 1;
        assert(chars@ =~= text_chars(bytes@.subrange(0, i as int)));
    }
    assert(bytes@.subrange(0, bytes@.len() as int) =~= bytes@);
    chars
}

/// Decodes the base64 legacy JSON payload of a layout string for a grid of
/// `columns` by `rows` tiles.
fn decode_v1(columns: u32, rows: u32, payload: &str) -> (r: Result<TowerLayoutSnapshot, LayoutTransferError>)
    ensures
        match url_safe_bytes(encode_utf8(payload@)) {
            None => r is Err && r->Err_0 is InvalidEncoding,
            Some(bytes) => match legacy_layout(text_chars(bytes)) {
                None => r is Err && r->Err_0 is InvalidLegacyPayload,
                Some((cells_per_tile, bits, towers)) => r is Ok && r->Ok_0.columns == columns && r->Ok_0.rows
                    == rows && r->Ok_0.tile_length_bits == bits && r->Ok_0.cells_per_tile == cells_per_tile
                    && r->Ok_0.towers@ == towers,
            },
        },
{
    let bytes = match decode_url_safe(payload.as_bytes()) {
        Ok(b) => b,
        Err(e) => {
            return Err(LayoutTransferError::InvalidEncoding(e));
        },
    };
    let chars = text_chars_of(&bytes);
    match read_legacy_layout(&chars) {
        Some((cells_per_tile, tile_length_bits, towers)) => Ok(
            TowerLayoutSnapshot { columns, rows, tile_length_bits, cells_per_tile, towers },
        ),
        None => Err(LayoutTransferError::InvalidLegacyPayload),
    }
}

/// Whether `chars[from..to]` spells `word`.
fn spells(chars: &Vec<char>, from: usize, to: usize, word: &[char]) -> (b: bool)
    requires
        from <= to <= chars@.len(),
    ensures
        b == (chars@.subrange(from as int, to as int) == word@),
{
    if to - from != word.len() {
        return false;
    }
    let mut i: usize = 0;
    while i < word.len()
        invariant
            i <= word@.len(),
            to - from == word@.len(),
            from <= to <= chars@.len(),
            forall|k: int| 0 <= k < i ==> chars@[from + k] == word@[k],
        decreases word@.len() - i,
    {
        if chars[from + i] != word[i] {
            assert(chars@.subrange(from as int, to as int)[i as int] != word@[i as int]);
            return false;
        }
        i = i + 1;
    }
    assert(chars@.subrange(from as int, to as int) =~= word@);
    true
}

/// The first occurrence found lies inside the sequence and holds the character.
proof fn lemma_first_index_bounds(s: Seq<char>, c: char)
    ensures
        first_index(s, c) matches Some(i) ==> 0 <= i < s.len() && s[i] == c,
    decreases s.len(),
{
    if s.len() > 0 && s[0] != c {
        let rest = s.subrange(1, s.len() as int);
        lemma_first_index_bounds(rest, c);
        if let Some(i) = first_index(rest, c) {
            assert(s[i + 1] == rest[i]);
        }
    }
}

/// Splitting at the first separator yields the text before it, then the
/// fields of the text after it.
proof fn lemma_split_at(s: Seq<char>, sep: char, i: int)
    requires
        first_index(s, sep) == Some(i),
    ensures
        0 <= i < s.len(),
        split_fields(s, sep) == seq![s.subrange(0, i)] + split_fields(s.subrange(i + 1, s.len() as int), sep),
{
    lemma_first_index_bounds(s, sep);
}

impl TowerLayoutSnapshot {
    /// Encodes the snapshot as a single-line layout string (see [`layout_text`]).
    #[verifier::rlimit(40)]
    pub fn encode(&self) -> (r: String)
        requires
            (14 + 11 * self.towers@.len()) / 3 * 4 + 3 <= usize::MAX,
        ensures
            r@ == layout_text(
                self.columns,
                self.rows,
                url_safe_text(payload_bytes(self.cells_per_tile, self.tile_length_bits, self.towers@)),
            ),
            self.columns >= 1 && self.rows >= 1 && self.towers@.len() < 0x1_0000_0000 ==> reading(r@)
                == LayoutReading::Layout(
                self.columns,
                self.rows,
                self.tile_length_bits,
                self.cells_per_tile,
                self.towers@,
            ),
    {
        let payload = encode_payload(self.cells_per_tile, self.tile_length_bits, self.towers.as_slice());
        proof {
            lemma_payload_len(self.cells_per_tile, self.tile_length_bits, self.towers@);
            let n = payload@.len();
            let m = 14 + 11 * self.towers@.len();
            assert(n / 3 * 4 + 3 <= m / 3 * 4 + 3) by (nonlinear_arith)
                requires
                    n <= m,
            ;
        }
        let text = encode_url_safe(payload.as_slice());
        proof {
            if self.columns >= 1 && self.rows >= 1 && self.towers@.len() < 0x1_0000_0000 {
                lemma_layout_round_trip(
                    self.columns,
                    self.rows,
                    self.tile_length_bits,
                    self.cells_per_tile,
                    self.towers@,
                );
            }
        }
        let mut chars: Vec<char> = vec!['m', 'a', 'z', 'e', ':', 'v', '2', ':'];
        push_decimal(self.columns, &mut chars);
        chars.push('x');
        push_decimal(self.rows, &mut chars);
        chars.push(':');
        let ghost prefix = chars@;
        let mut i: usize = 0;
        while i < text.len()
            invariant
                i <= text@.len(),
                chars@ == prefix + text_chars(text@.subrange(0, i as int)),
            decreases text@.len() - i,
        {
            chars.push(text[i] as char);
            i = i + 1;
            assert(chars@ =~= prefix + text_chars(text@.subrange(0, i as int)));
        }
        assert(text@.subrange(0, text@.len() as int) =~= text@);
        assert(chars@ =~= layout_text(self.columns, self.rows, text@));
        chars_to_string(chars.as_slice())
    }

    /// Decodes a snapshot from its layout string (see [`reading`]).
    pub fn decode(value: &str) -> (r: Result<Self, LayoutTransferError>)
        ensures
            reports_reading(r, reading(value@)),
    {
        let chars = chars_of(value);
        let (lo, hi) = trim_bounds(&chars);
        let ghost t = chars@.subrange(lo as int, hi as int);
        assert(t == trimmed(value@));
        if lo == hi {
            return Err(LayoutTransferError::EmptyPayload);
        }
        let c1 = find_char(&chars, lo, hi, ':');
        if c1 == hi {
            return Err(LayoutTransferError::MissingVersion);
        }
        let ghost u1 = chars@.subrange(c1 + 1, hi as int);
        proof {
            lemma_split_at(t, ':', c1 - lo);
            assert(t.subrange(c1 - lo + 1, t.len() as int) =~= u1);
            assert(t.subrange(0, c1 - lo) =~= chars@.subrange(lo as int, c1 as int));
        }
        let c2 = find_char(&chars, c1 + 1, hi, ':');
        if c2 == hi {
            assert(split_fields(t, ':').len() == 2);
            return Err(LayoutTransferError::MissingDimensions);
        }
        let ghost u2 = chars@.subrange(c2 + 1, hi as int);
        proof {
            lemma_split_at(u1, ':', c2 - c1 - 1);
            assert(u1.subrange(c2 - c1 - 1 + 1, u1.len() as int) =~= u2);
            assert(u1.subrange(0, c2 - c1 - 1) =~= chars@.subrange(c1 + 1, c2 as int));
        }
        let c3 = find_char(&chars, c2 + 1, hi, ':');
        if c3 == hi {
            assert(split_fields(t, ':').len() == 3);
            return Err(LayoutTransferError::MissingPayload);
        }
        let ghost u3 = chars@.subrange(c3 + 1, hi as int);
        proof {
            lemma_split_at(u2, ':', c3 - c2 - 1);
            assert(u2.subrange(c3 - c2 - 1 + 1, u2.len() as int) =~= u3);
            assert(u2.subrange(0, c3 - c2 - 1) =~= chars@.subrange(c2 + 1, c3 as int));
        }
        let c4 = find_char(&chars, c3 + 1, hi, ':');
        proof {
            if c4 < hi {
                lemma_split_at(u3, ':', c4 - c3 - 1);
                assert(u3.subrange(0, c4 - c3 - 1) =~= chars@.subrange(c3 + 1, c4 as int));
            } else {
                assert(u3 =~= chars@.subrange(c3 + 1, c4 as int));
            }
            let parts = split_fields(t, ':');
            assert(parts.len() >= 4);
            assert(parts[0] == chars@.subrange(lo as int, c1 as int));
            assert(parts[1] == chars@.subrange(c1 + 1, c2 as int));
            assert(parts[2] == chars@.subrange(c2 + 1, c3 as int));
            assert(parts[3] == chars@.subrange(c3 + 1, c4 as int));
        }
        let domain_word: Vec<char> = vec!['m', 'a', 'z', 'e'];
        if !spells(&chars, lo, c1, domain_word.as_slice()) {
            return Err(LayoutTransferError::InvalidPrefix(value.substring_char(lo, c1).to_owned()));
        }
        let dimensions = value.substring_char(c2 + 1, c3);
        let (columns, rows) = match parse_dimensions(dimensions) {
            Ok(d) => d,
            Err(e) => {
                return Err(e);
            },
        };
        let legacy_word: Vec<char> = vec!['v', '1'];
        if spells(&chars, c1 + 1, c2, legacy_word.as_slice()) {
            return decode_v1(columns, rows, value.substring_char(c3 + 1, c4));
        }
        let version_word: Vec<char> = vec!['v', '2'];
        if !spells(&chars, c1 + 1, c2, version_word.as_slice()) {
            return Err(LayoutTransferError::UnsupportedVersion(value.substring_char(c1 + 1, c2).to_owned()));
        }
        decode_v2(columns, rows, value.substring_char(c3 + 1, c4))
    }
}

/// Text free of white space at both ends is its own trimmed form.
proof fn lemma_trimmed_identity(s: Seq<char>)
    requires
        s.len() > 0,
        !is_space(s[0]),
        !is_space(s.last()),
    ensures
        trimmed(s) == s,
{
    lemma_leading_spaces(s, 0);
    lemma_trailing_spaces(s, s.len() as int);
    assert(s.subrange(0, s.len() as int) =~= s);
}

/// The decimal digits of a number trim to themselves and read back as the number.
proof fn lemma_decimal_field(v: u32)
    ensures
        trimmed(decimal_chars(v as nat)) == decimal_chars(v as nat),
        parse_u32_spec(trimmed(decimal_chars(v as nat))) == Some(v),
        forall|i: int| 0 <= i < decimal_chars(v as nat).len() ==> {
            let c = #[trigger] decimal_chars(v as nat)[i];
            &&& c != ':'
            &&& c != 'x'
            &&& c != 'X'
            &&& !is_space(c)
        },
{
    let d = decimal_chars(v as nat);
    lemma_decimal_round_trip(v as nat);
    assert forall|i: int| 0 <= i < d.len() implies {
        let c = #[trigger] d[i];
        &&& c != ':'
        &&& c != 'x'
        &&& c != 'X'
        &&& !is_space(c)
    } by {
        assert(is_digit(d[i]));
    }
    lemma_trimmed_identity(d);
    assert(d[0] != '+');
    assert(digits_of(d) == d);
    assert(all_digits(d));
}

/// The characters of URL-safe base64 text are ASCII, and none is a colon or white space.
proof fn lemma_symbol_chars(text: Seq<u8>)
    requires
        forall|i: int| 0 <= i < text.len() ==> is_url_safe_symbol(#[trigger] text[i]),
    ensures
        encode_utf8(text_chars(text)) == text,
        forall|i: int| 0 <= i < text.len() ==> {
            let c = #[trigger] text_chars(text)[i];
            &&& c != ':'
            &&& !is_space(c)
        },
{
    let t = text_chars(text);
    assert forall|i: int| 0 <= i < t.len() implies '\0' <= #[trigger] t[i] <= '\u{7f}' by {
        assert(is_url_safe_symbol(text[i]));
    }
    assert(vstd::utf8::is_ascii_chars(t));
    vstd::utf8::is_ascii_chars_encode_utf8(t);
    assert(encode_utf8(t) =~= text);
    assert forall|i: int| 0 <= i < text.len() implies {
        let c = #[trigger] t[i];
        &&& c != ':'
        &&& !is_space(c)
    } by {
        assert(is_url_safe_symbol(text[i]));
    }
}

/// The fields of `a`, a separator and `b`, when `a` holds no separator, are
/// `a` followed by the fields of `b`.
proof fn lemma_split_prefix(a: Seq<char>, b: Seq<char>, sep: char)
    requires
        forall|i: int| 0 <= i < a.len() ==> #[trigger] a[i] != sep,
    ensures
        split_fields(a + seq![sep] + b, sep) == seq![a] + split_fields(b, sep),
{
    let s = a + seq![sep] + b;
    assert forall|k: int| 0 <= k < a.len() implies #[trigger] s[k] != sep by {
        assert(s[k] == a[k]);
    }
    lemma_first_index(s, sep, a.len() as int);
    lemma_split_at(s, sep, a.len() as int);
    assert(s.subrange(0, a.len() as int) =~= a);
    assert(s.subrange(a.len() as int + 1, s.len() as int) =~= b);
}

/// Text without a separator is a single field.
proof fn lemma_split_whole(a: Seq<char>, sep: char)
    requires
        forall|i: int| 0 <= i < a.len() ==> #[trigger] a[i] != sep,
    ensures
        split_fields(a, sep) == seq![a],
{
    lemma_first_index(a, sep, a.len() as int);
}

/// The text of a layout is already trimmed and splits into its four fields.
proof fn lemma_layout_fields(columns: u32, rows: u32, text: Seq<u8>)
    requires
        text.len() > 0,
        forall|i: int| 0 <= i < text.len() ==> is_url_safe_symbol(#[trigger] text[i]),
    ensures
        trimmed(layout_text(columns, rows, text)) == layout_text(columns, rows, text),
        split_fields(layout_text(columns, rows, text), ':') == seq![
            seq!['m', 'a', 'z', 'e'],
            seq!['v', '2'],
            decimal_chars(columns as nat) + seq!['x'] + decimal_chars(rows as nat),
            text_chars(text),
        ],
{
    let t = text_chars(text);
    let dc = decimal_chars(columns as nat);
    let dr = decimal_chars(rows as nat);
    let dims = dc + seq!['x'] + dr;
    let whole = layout_text(columns, rows, text);
    lemma_symbol_chars(text);
    lemma_decimal_field(columns);
    lemma_decimal_field(rows);
    // The string neither starts nor ends with white space.
    assert(whole[0] == 'm');
    assert(whole.last() == t.last());
    lemma_trimmed_identity(whole);
    // It splits into the four fields.
    let maze = seq!['m', 'a', 'z', 'e'];
    let v2 = seq!['v', '2'];
    assert(whole =~= maze + seq![':'] + (v2 + seq![':'] + (dims + seq![':'] + t)));
    assert forall|i: int| 0 <= i < dims.len() implies #[trigger] dims[i] != ':' by {
        if i < dc.len() {
            assert(dims[i] == dc[i]);
        } else if i > dc.len() {
            assert(dims[i] == dr[i - dc.len() - 1]);
        }
    }
    lemma_split_prefix(maze, v2 + seq![':'] + (dims + seq![':'] + t), ':');
    lemma_split_prefix(v2, dims + seq![':'] + t, ':');
    lemma_split_prefix(dims, t, ':');
    lemma_split_whole(t, ':');
    assert(split_fields(whole, ':') =~= seq![maze, v2, dims, t]);
}

/// The dimensions field of a layout reads back as its dimensions.
proof fn lemma_layout_dimensions(columns: u32, rows: u32)
    requires
        columns >= 1,
        rows >= 1,
    ensures
        dimensions_of(decimal_chars(columns as nat) + seq!['x'] + decimal_chars(rows as nat)) == Some(
            (columns, rows),
        ),
{
    let dc = decimal_chars(columns as nat);
    let dr = decimal_chars(rows as nat);
    let dims = dc + seq!['x'] + dr;
    lemma_decimal_field(columns);
    lemma_decimal_field(rows);
    assert forall|k: int| 0 <= k < dc.len() implies #[trigger] dims[k] != 'x' && dims[k] != 'X' by {
        assert(dims[k] == dc[k]);
    }
    lemma_first_x(dims, dc.len() as int);
    assert(dims.subrange(0, dc.len() as int) =~= dc);
    assert(dims.subrange(dc.len() as int + 1, dims.len() as int) =~= dr);
}

/// A layout string written by [`TowerLayoutSnapshot::encode`] reads back as
/// the layout it was written from, for positive dimensions and fewer than
/// 2^32 towers, whenever the base64 text of the payload consists of URL-safe
/// symbols, is not empty, and decodes to the payload (what the base64 engine
/// promises of its own output).
pub proof fn lemma_layout_round_trip(
    columns: u32,
    rows: u32,
    tile_length_bits: u32,
    cells_per_tile: u32,
    towers: Seq<TowerLayoutTower>,
)
    requires
        columns >= 1,
        rows >= 1,
        towers.len() < 0x1_0000_0000,
    ensures
        ({
            let payload = payload_bytes(cells_per_tile, tile_length_bits, towers);
            let text = url_safe_text(payload);
            (url_safe_bytes(text) == Some(payload) && text.len() > 0 && (forall|i: int|
                0 <= i < text.len() ==> is_url_safe_symbol(#[trigger] text[i]))) ==> reading(
                layout_text(columns, rows, text),
            ) == LayoutReading::Layout(columns, rows, tile_length_bits, cells_per_tile, towers)
        }),
{
    let payload = payload_bytes(cells_per_tile, tile_length_bits, towers);
    let text = url_safe_text(payload);
    if url_safe_bytes(text) == Some(payload) && text.len() > 0 && (forall|i: int|
        0 <= i < text.len() ==> is_url_safe_symbol(#[trigger] text[i])) {
        lemma_symbol_chars(text);
        lemma_layout_fields(columns, rows, text);
        lemma_layout_dimensions(columns, rows);
        lemma_payload_round_trip(cells_per_tile, tile_length_bits, towers);
    }
}

} // verus!
