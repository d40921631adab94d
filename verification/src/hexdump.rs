//! The byte buffer of one captured frame and its hex/ASCII rendering. The
//! renderer is a pure function of the buffer and the viewport width: an
//! address column, a header row of column indices, a separator rule, then
//! one row per `bytes_per_line` bytes (two hex digits and a space each) with
//! an ASCII gutter, kept aligned by blank padding on the final short row.

use vstd::prelude::*;

use crate::strfmt;
use crate::strfmt::spec_hex_digit;
use crate::strfmt::spec_hex_digit_upper;
use crate::strfmt::spec_hex_pad;
use crate::strfmt::spec_hex_pad_upper;
use crate::strfmt::spec_hex_val;
use crate::strfmt::spec_repeat;

verus! {

/// Characters reserved ahead of the byte columns: `0x`, four address
/// digits, and the column separator.
pub const ROW_PREAMBLE_WIDTH: usize = 8;

/// The largest power of two that is at most `n` (1 for `n` below 2).
pub open spec fn spec_largest_pow2_le(n: nat) -> nat
    decreases n,
{
    if n < 2 {
        1
    } else {
        2 * spec_largest_pow2_le(n / 2)
    }
}

/// Whether `p` is a power of two.
pub open spec fn spec_is_pow2(p: nat) -> bool
    decreases p,
{
    if p == 0 {
        false
    } else if p == 1 {
        true
    } else {
        p % 2 == 0 && spec_is_pow2(p / 2)
    }
}

/// `spec_largest_pow2_le` deserves its name: the result is a power of two,
/// at most `n`, and the next power of two is past `n`.
pub proof fn lemma_largest_pow2_le(n: nat)
    requires
        n >= 1,
    ensures
        spec_is_pow2(spec_largest_pow2_le(n)),
        spec_largest_pow2_le(n) <= n,
        2 * spec_largest_pow2_le(n) > n,
    decreases n,
{
    if n < 2 {
    } else {
        lemma_largest_pow2_le(n / 2);
    }
}

/// How many bytes one row holds for a viewport: the largest power of two
/// `bytes_per_line` such that the preamble plus `4 × bytes_per_line`
/// character cells (three for the hex token, one for the ASCII gutter) fit
/// the width.
pub open spec fn spec_bytes_per_line(width: nat) -> nat {
    spec_largest_pow2_le(((width - ROW_PREAMBLE_WIDTH) / 4) as nat)
}

/// The row budget holds: for any width that fits at least one byte column,
/// the chosen `bytes_per_line` is a power of two, fits the width, and is
/// the largest such power of two.
pub proof fn lemma_bytes_per_line_fits(width: nat)
    requires
        width >= 12,
    ensures
        spec_is_pow2(spec_bytes_per_line(width)),
        ROW_PREAMBLE_WIDTH + 4 * spec_bytes_per_line(width) <= width,
        ROW_PREAMBLE_WIDTH + 4 * (2 * spec_bytes_per_line(width)) > width,
{
    let m = (width - ROW_PREAMBLE_WIDTH) as nat / 4;
    lemma_largest_pow2_le(m);
}

/// The largest power of two that is at most `n`.
pub fn largest_pow2_le(n: usize) -> (r: usize)
    requires
        n >= 1,
    ensures
        r == spec_largest_pow2_le(n as nat),
        1 <= r <= n,
    decreases n,
{
    if n < 2 {
        1
    } else {
        let half = largest_pow2_le(n / 2);
        proof {
            lemma_largest_pow2_le((n / 2) as nat);
        }
        2 * half
    }
}

/// The buffer cut into rows of `bpl` bytes; the final row may be shorter,
/// never empty.
pub open spec fn spec_chunks(bytes: Seq<u8>, bpl: nat) -> Seq<Seq<u8>>
    decreases bytes.len(),
    when bpl >= 1
{
    if bytes.len() == 0 {
        seq![]
    } else if bytes.len() <= bpl {
        seq![bytes]
    } else {
        seq![bytes.take(bpl as int)] + spec_chunks(bytes.skip(bpl as int), bpl)
    }
}

/// The hex tokens of one row: two lowercase digits and a space per byte.
pub open spec fn spec_hex_tokens(chunk: Seq<u8>) -> Seq<char>
    decreases chunk.len(),
{
    if chunk.len() == 0 {
        Seq::<char>::empty()
    } else {
        spec_hex_tokens(chunk.drop_last()) + spec_hex_pad(chunk.last() as nat, 2) + seq![' ']
    }
}

/// The ASCII gutter's character for a byte: printable non-control ASCII
/// passes through, everything else shows as a dot.
pub open spec fn spec_ascii_char(b: u8) -> char {
    if 32 <= b <= 126 {
        b as char
    } else {
        '.'
    }
}

/// The ASCII gutter of one row.
pub open spec fn spec_ascii_gutter(chunk: Seq<u8>) -> Seq<char> {
    chunk.map_values(|b: u8| spec_ascii_char(b))
}

/// The address column of a row starting at byte `base`: `0x`, at least
/// four uppercase digits, and the column separator.
pub open spec fn spec_addr(base: nat) -> Seq<char> {
    "0x"@ + spec_hex_pad_upper(base, 4) + "| "@
}

/// One data row: address, hex tokens, blank padding on a short row so the
/// gutter stays aligned, the gutter separator, the ASCII gutter, and — on
/// full rows only — the line break.
pub open spec fn spec_row_text(chunk: Seq<u8>, bpl: nat, base: nat) -> Seq<char> {
    if chunk.len() == bpl {
        spec_addr(base) + spec_hex_tokens(chunk) + "| "@ + spec_ascii_gutter(chunk) + "\n"@
    } else {
        spec_addr(base) + spec_hex_tokens(chunk) + spec_repeat(
            ' ',
            (3 * (bpl - chunk.len())) as nat,
        ) + "| "@ + spec_ascii_gutter(chunk)
    }
}

/// The column indices `00 01 ...` of the first `count` byte columns.
pub open spec fn spec_col_indices(count: nat) -> Seq<char>
    decreases count,
{
    if count == 0 {
        Seq::<char>::empty()
    } else {
        spec_col_indices((count - 1) as nat) + spec_hex_pad((count - 1) as nat, 2) + seq![' ']
    }
}

/// The header row: blank preamble, column indices, and the gutter mark.
pub open spec fn spec_header_row(bpl: nat) -> Seq<char> {
    spec_repeat(' ', ROW_PREAMBLE_WIDTH as nat) + spec_col_indices(bpl) + "|\n"@
}

/// The separator rule under the header.
pub open spec fn spec_separator_row(bpl: nat) -> Seq<char> {
    spec_repeat('-', (ROW_PREAMBLE_WIDTH + 4 * bpl) as nat) + "\n"@
}

/// All data rows, in order, each based `bpl` bytes after the one before.
pub open spec fn spec_data_rows(chunks: Seq<Seq<u8>>, bpl: nat, base: nat) -> Seq<char>
    decreases chunks.len(),
{
    if chunks.len() == 0 {
        Seq::<char>::empty()
    } else {
        spec_row_text(chunks[0], bpl, base) + spec_data_rows(chunks.drop_first(), bpl, base + bpl)
    }
}

/// The whole rendering: header row, separator rule, then the data rows.
pub open spec fn spec_hexdump(bytes: Seq<u8>, width: nat) -> Seq<char> {
    let bpl = spec_bytes_per_line(width);
    spec_header_row(bpl) + spec_separator_row(bpl) + spec_data_rows(spec_chunks(bytes, bpl), bpl, 0)
}

/// The bytes read back from a data row's hex tokens: for each of `count`
/// positions, the pair of digit characters after the eight-character
/// address column.
pub open spec fn spec_row_bytes(row: Seq<char>, count: nat) -> Seq<u8> {
    Seq::new(
        count,
        |i: int|
            (16 * spec_hex_val(row[8 + 3 * i]) + spec_hex_val(row[8 + 3 * i + 1])) as u8,
    )
}

/// A byte's hex token is its two digits.
proof fn lemma_hex_pad2(b: nat)
    requires
        b < 256,
    ensures
        spec_hex_pad(b, 2) == seq![
            spec_hex_digit((b / 16) as int),
            spec_hex_digit((b % 16) as int),
        ],
{
    assert(spec_hex_pad(b / 16, 1) =~= seq![spec_hex_digit((b / 16) as int)]);
    assert(spec_hex_pad(b, 2) =~= seq![
        spec_hex_digit((b / 16) as int),
        spec_hex_digit((b % 16) as int),
    ]);
}

/// An address below 0x10000 renders as exactly four digits.
proof fn lemma_hex_pad_upper_len4(n: nat)
    requires
        n < 0x10000,
    ensures
        spec_hex_pad_upper(n, 4).len() == 4,
{
    assert(spec_hex_pad_upper(n / 4096, 1).len() == 1);
    assert(spec_hex_pad_upper(n / 256, 2) == spec_hex_pad_upper(n / 256 / 16, 1).push(
        spec_hex_digit_upper((n / 256 % 16) as int),
    ));
    assert(n / 256 / 16 == n / 4096) by (nonlinear_arith);
    assert(spec_hex_pad_upper(n / 16, 3) == spec_hex_pad_upper(n / 16 / 16, 2).push(
        spec_hex_digit_upper((n / 16 % 16) as int),
    ));
    assert(n / 16 / 16 == n / 256) by (nonlinear_arith);
}

/// A row's hex-token region is three characters per byte.
proof fn lemma_hex_tokens_len(chunk: Seq<u8>)
    ensures
        spec_hex_tokens(chunk).len() == 3 * chunk.len(),
    decreases chunk.len(),
{
    if chunk.len() > 0 {
        lemma_hex_tokens_len(chunk.drop_last());
        lemma_hex_pad2(chunk.last() as nat);
    }
}

/// The characters of byte `i`'s hex token within a row's token region.
proof fn lemma_hex_tokens_index(chunk: Seq<u8>, i: int)
    requires
        0 <= i < chunk.len(),
    ensures
        spec_hex_tokens(chunk)[3 * i] == spec_hex_digit((chunk[i] / 16) as int),
        spec_hex_tokens(chunk)[3 * i + 1] == spec_hex_digit((chunk[i] % 16) as int),
        spec_hex_tokens(chunk)[3 * i + 2] == ' ',
    decreases chunk.len(),
{
    lemma_hex_tokens_len(chunk);
    lemma_hex_tokens_len(chunk.drop_last());
    lemma_hex_pad2(chunk.last() as nat);
    if i == chunk.len() - 1 {
    } else {
        lemma_hex_tokens_index(chunk.drop_last(), i);
    }
}

/// Reading one rendered row back gives the bytes it was rendered from,
/// whatever the padding and gutter hold.
proof fn lemma_row_round_trip(chunk: Seq<u8>, bpl: nat, base: nat)
    requires
        1 <= chunk.len() <= bpl,
        base < 0x10000,
    ensures
        spec_row_bytes(spec_row_text(chunk, bpl, base), chunk.len()) == chunk,
{
    let row = spec_row_text(chunk, bpl, base);
    lemma_hex_pad_upper_len4(base);
    reveal_strlit("0x");
    reveal_strlit("| ");
    assert(spec_addr(base).len() == 8);
    lemma_hex_tokens_len(chunk);
    assert forall|i: int| 0 <= i < chunk.len() implies spec_row_bytes(row, chunk.len())[i]
        == chunk[i] by {
        lemma_hex_tokens_index(chunk, i);
        assert(row[8 + 3 * i] == spec_hex_tokens(chunk)[3 * i]);
        assert(row[8 + 3 * i + 1] == spec_hex_tokens(chunk)[3 * i + 1]);
        crate::strfmt::lemma_hex_digit_round_trip((chunk[i] / 16) as int);
        crate::strfmt::lemma_hex_digit_round_trip((chunk[i] % 16) as int);
    }
    assert(spec_row_bytes(row, chunk.len()) =~= chunk);
}

/// Row `i` starts inside the buffer and holds exactly the bytes from
/// `i * bpl` up to the next row or the buffer end.
pub open spec fn spec_chunk_matches(bytes: Seq<u8>, bpl: nat, i: int, c: Seq<u8>) -> bool {
    &&& i * bpl < bytes.len()
    &&& c == bytes.subrange(
        i * bpl,
        if (i + 1) * bpl <= bytes.len() {
            (i + 1) * bpl
        } else {
            bytes.len() as int
        },
    )
}

/// How the buffer is cut into rows: `ceil(len / bpl)` of them, row `i`
/// holding the bytes from `i * bpl` up to the next row or the end.
proof fn lemma_chunks_structure(bytes: Seq<u8>, bpl: nat)
    requires
        bpl >= 1,
    ensures
        spec_chunks(bytes, bpl).len() == (bytes.len() + bpl - 1) / (bpl as int),
        forall|i: int|
            0 <= i < spec_chunks(bytes, bpl).len() ==> spec_chunk_matches(
                bytes,
                bpl,
                i,
                #[trigger] spec_chunks(bytes, bpl)[i],
            ),
    decreases bytes.len(),
{
    let chunks = spec_chunks(bytes, bpl);
    let len = bytes.len();
    if len == 0 {
        vstd::arithmetic::div_mod::lemma_basic_div(bpl - 1, bpl as int);
    } else if len <= bpl {
        vstd::arithmetic::div_mod::lemma_basic_div(len - 1, bpl as int);
        vstd::arithmetic::div_mod::lemma_div_plus_one(len - 1, bpl as int);
        assert(chunks.len() == 1);
        assert forall|i: int| 0 <= i < chunks.len() implies spec_chunk_matches(
            bytes,
            bpl,
            i,
            #[trigger] chunks[i],
        ) by {
            assert(i == 0);
            assert(i * bpl == 0);
            assert((i + 1) * bpl == bpl);
            if (i + 1) * bpl <= len {
                assert(len == bpl);
                assert(bytes.subrange(0, bpl as int) =~= bytes);
            } else {
                assert(bytes.subrange(0, len as int) =~= bytes);
            }
        }
    } else {
        let tail_bytes = bytes.skip(bpl as int);
        lemma_chunks_structure(tail_bytes, bpl);
        vstd::arithmetic::div_mod::lemma_div_plus_one(len - 1, bpl as int);
        assert(chunks.len() == 1 + spec_chunks(tail_bytes, bpl).len());
        assert(tail_bytes.len() == len - bpl);
        assert(((len - bpl) + bpl - 1) / (bpl as int) == (len - 1) / (bpl as int));
        assert forall|i: int| 0 <= i < chunks.len() implies spec_chunk_matches(
            bytes,
            bpl,
            i,
            #[trigger] chunks[i],
        ) by {
            assert(i * bpl == (i - 1) * bpl + bpl) by (nonlinear_arith);
            assert((i + 1) * bpl == i * bpl + bpl) by (nonlinear_arith);
            if i == 0 {
                assert(chunks[0] == bytes.take(bpl as int));
                assert(bytes.take(bpl as int) =~= bytes.subrange(0, bpl as int));
                assert(i * bpl == 0);
                assert((i + 1) * bpl == bpl);
            } else {
                let j = i - 1;
                assert(chunks[i] == spec_chunks(tail_bytes, bpl)[j]);
                assert(j * bpl < tail_bytes.len());
                let e = if (j + 1) * bpl <= tail_bytes.len() {
                    (j + 1) * bpl
                } else {
                    tail_bytes.len() as int
                };
                assert(spec_chunks(tail_bytes, bpl)[j] == tail_bytes.subrange(j * bpl, e));
                assert(0 <= j * bpl <= e <= tail_bytes.len());
                assert(tail_bytes.subrange(j * bpl, e) =~= bytes.subrange(
                    j * bpl + bpl,
                    e + bpl,
                ));
                assert((j + 1) * bpl == i * bpl);
                assert(j * bpl + bpl == i * bpl);
            }
        }
    }
}

/// The rows' bytes, concatenated in order, are the buffer.
proof fn lemma_chunks_flatten(bytes: Seq<u8>, bpl: nat)
    requires
        bpl >= 1,
    ensures
        spec_chunks(bytes, bpl).flatten() == bytes,
    decreases bytes.len(),
{
    let chunks = spec_chunks(bytes, bpl);
    if bytes.len() == 0 {
        assert(chunks.flatten() =~= bytes);
    } else if bytes.len() <= bpl {
        assert(chunks == seq![bytes]);
        assert(chunks.drop_first() =~= Seq::<Seq<u8>>::empty());
        assert(Seq::<Seq<u8>>::empty().flatten() =~= Seq::<u8>::empty());
        assert(chunks.flatten() =~= bytes);
    } else {
        let tail_bytes = bytes.skip(bpl as int);
        lemma_chunks_flatten(tail_bytes, bpl);
        assert(chunks.first() == bytes.take(bpl as int));
        assert(chunks.drop_first() =~= spec_chunks(tail_bytes, bpl));
        assert(chunks.flatten() == chunks.first() + chunks.drop_first().flatten());
        assert(bytes.take(bpl as int) + tail_bytes =~= bytes);
    }
}


/// The data-row section of a rendering is exactly the row texts of the
/// chunks, concatenated in order, row `i` based `i × bpl` bytes after
/// `base`.
proof fn lemma_data_rows_flatten(chunks: Seq<Seq<u8>>, bpl: nat, base: nat)
    ensures
        spec_data_rows(chunks, bpl, base) == Seq::new(
            chunks.len(),
            |i: int| spec_row_text(chunks[i], bpl, (base + i * bpl) as nat),
        ).flatten(),
    decreases chunks.len(),
{
    let rows = Seq::new(
        chunks.len(),
        |i: int| spec_row_text(chunks[i], bpl, (base + i * bpl) as nat),
    );
    if chunks.len() == 0 {
        assert(rows.flatten() =~= Seq::<char>::empty());
    } else {
        lemma_data_rows_flatten(chunks.drop_first(), bpl, base + bpl);
        let tail_rows = Seq::new(
            chunks.drop_first().len(),
            |i: int| spec_row_text(chunks.drop_first()[i], bpl, (base + bpl + i * bpl) as nat),
        );
        assert(rows.drop_first() =~= tail_rows) by {
            assert forall|i: int| 0 <= i < rows.len() - 1 implies rows.drop_first()[i]
                == tail_rows[i] by {
                assert((i + 1) * bpl == i * bpl + bpl) by (nonlinear_arith);
                assert(chunks.drop_first()[i] == chunks[i + 1]);
            }
        }
        assert(rows.first() == spec_row_text(chunks[0], bpl, base));
        assert(rows.flatten() == rows.first() + rows.drop_first().flatten());
    }
}

/// The renderer's round trip: a buffer rendered at `bpl` bytes per line
/// yields `ceil(len / bpl)` data rows, and reading the hex tokens of every
/// row back, in order, reconstructs the buffer exactly. Stated for buffers
/// whose addresses fit the four-digit address column.
pub proof fn lemma_hexdump_round_trip(bytes: Seq<u8>, bpl: nat)
    requires
        bpl >= 1,
        bytes.len() <= 0x10000,
    ensures
        spec_chunks(bytes, bpl).len() == (bytes.len() + bpl - 1) / (bpl as int),
        spec_data_rows(spec_chunks(bytes, bpl), bpl, 0) == Seq::new(
            spec_chunks(bytes, bpl).len(),
            |i: int| spec_row_text(spec_chunks(bytes, bpl)[i], bpl, (i * bpl) as nat),
        ).flatten(),
        Seq::new(
            spec_chunks(bytes, bpl).len(),
            |i: int|
                spec_row_bytes(
                    spec_row_text(spec_chunks(bytes, bpl)[i], bpl, (i * bpl) as nat),
                    spec_chunks(bytes, bpl)[i].len(),
                ),
        ).flatten() == bytes,
{
    lemma_chunks_structure(bytes, bpl);
    lemma_chunks_flatten(bytes, bpl);
    lemma_data_rows_flatten(spec_chunks(bytes, bpl), bpl, 0);
    assert(Seq::new(
        spec_chunks(bytes, bpl).len(),
        |i: int| spec_row_text(spec_chunks(bytes, bpl)[i], bpl, (0 + i * bpl) as nat),
    ) =~= Seq::new(
        spec_chunks(bytes, bpl).len(),
        |i: int| spec_row_text(spec_chunks(bytes, bpl)[i], bpl, (i * bpl) as nat),
    ));
    let chunks = spec_chunks(bytes, bpl);
    let parsed = Seq::new(
        chunks.len(),
        |i: int|
            spec_row_bytes(spec_row_text(chunks[i], bpl, (i * bpl) as nat), chunks[i].len()),
    );
    assert forall|i: int| 0 <= i < chunks.len() implies parsed[i] == chunks[i] by {
        let c = spec_chunks(bytes, bpl)[i];
        assert(spec_chunk_matches(bytes, bpl, i, c));
        assert(i * bpl < bytes.len());
        assert((i + 1) * bpl == i * bpl + bpl) by (nonlinear_arith);
        assert(1 <= c.len() <= bpl);
        lemma_row_round_trip(c, bpl, (i * bpl) as nat);
    }
    assert(parsed =~= chunks);
}

/// The ASCII gutter's character for a byte.
pub fn ascii_char(b: u8) -> (c: char)
    ensures
        c == spec_ascii_char(b),
{
    if 32 <= b && b <= 126 {
        b as char
    } else {
        '.'
    }
}

/// Appends one data row for `data[pos..end]`.
fn push_row(s: &mut String, data: &[u8], pos: usize, end: usize, bpl: usize)
    requires
        pos < end <= data@.len(),
        end - pos <= bpl,
        4 * bpl as int <= usize::MAX as int,
    ensures
        final(s)@ == old(s)@ + spec_row_text(
            data@.subrange(pos as int, end as int),
            bpl as nat,
            pos as nat,
        ),
{
    let ghost chunk = data@.subrange(pos as int, end as int);
    let count = end - pos;

    s.append("0x");
    strfmt::push_hex_pad_upper(s, pos as u64, 4);
    s.append("| ");
    let ghost after_addr = s@;
    assert(after_addr =~= old(s)@ + spec_addr(pos as nat));

    let mut j: usize = 0;
    while j < count
        invariant
            j <= count,
            count == end - pos,
            pos < end <= data@.len(),
            chunk == data@.subrange(pos as int, end as int),
            s@ == after_addr + spec_hex_tokens(chunk.take(j as int)),
        decreases count - j,
    {
        let ghost before = s@;
        strfmt::push_hex_pad(s, data[pos + j] as u64, 2);
        s.push(' ');
        proof {
            assert(chunk.take(j + 1).drop_last() =~= chunk.take(j as int));
            assert(chunk.take(j + 1).last() == data@[pos + j]);
            assert(s@ =~= after_addr + spec_hex_tokens(chunk.take(j + 1))) by {
                assert(s@ =~= before + spec_hex_pad(data@[pos + j] as nat, 2) + seq![' ']);
            }
        }
        j = j + 1;
    }
    assert(chunk.take(count as int) =~= chunk);

    if count < bpl {
        strfmt::push_repeat(s, ' ', 3 * (bpl - count));
    }
    s.append("| ");

    let ghost after_sep = s@;
    let mut k: usize = 0;
    while k < count
        invariant
            k <= count,
            count == end - pos,
            pos < end <= data@.len(),
            chunk == data@.subrange(pos as int, end as int),
            s@ == after_sep + spec_ascii_gutter(chunk.take(k as int)),
        decreases count - k,
    {
        let ghost before = s@;
        s.push(ascii_char(data[pos + k]));
        proof {
            assert(spec_ascii_gutter(chunk.take(k + 1)) =~= spec_ascii_gutter(
                chunk.take(k as int),
            ).push(spec_ascii_char(data@[pos + k])));
            assert(s@ =~= after_sep + spec_ascii_gutter(chunk.take(k + 1)));
        }
        k = k + 1;
    }
    assert(chunk.take(count as int) =~= chunk);

    if count == bpl {
        s.append("\n");
    }
    proof {
        if count == bpl {
            assert(s@ =~= old(s)@ + spec_row_text(chunk, bpl as nat, pos as nat));
        } else {
            assert(s@ =~= old(s)@ + spec_row_text(chunk, bpl as nat, pos as nat));
        }
    }
}

/// The owned, immutable-after-construction byte buffer of one frame.
#[derive(Clone, Debug)]
pub struct BytePool {
    bytes: Vec<u8>,
}

impl View for BytePool {
    type V = Seq<u8>;

    closed spec fn view(&self) -> Seq<u8> {
        self.bytes@
    }
}

impl BytePool {
    /// An empty buffer.
    pub fn new() -> (r: Self)
        ensures
            r@ =~= Seq::<u8>::empty(),
    {
        BytePool { bytes: Vec::new() }
    }

    /// A buffer owning the given bytes.
    pub fn from_vec(bytes: Vec<u8>) -> (r: Self)
        ensures
            r@ == bytes@,
    {
        BytePool { bytes }
    }

    /// The captured length.
    pub fn len(&self) -> (n: usize)
        ensures
            n == self@.len(),
    {
        self.bytes.len()
    }

    /// The bytes as a borrowed slice.
    pub fn as_slice(&self) -> (s: &[u8])
        ensures
            s@ == self@,
    {
        self.bytes.as_slice()
    }

    /// Renders the buffer for a viewport of `window_width` character
    /// cells, recomputing `bytes_per_line` from the width on every call.
    /// The width must fit at least one byte column.
    pub fn hexdump(&self, window_width: usize) -> (r: String)
        requires
            window_width >= 12,
        ensures
            r@ == spec_hexdump(self@, window_width as nat),
    {
        let bpl = largest_pow2_le((window_width - ROW_PREAMBLE_WIDTH) / 4);
        proof {
            lemma_bytes_per_line_fits(window_width as nat);
            assert(bpl == spec_bytes_per_line(window_width as nat));
            assert(4 * bpl <= window_width - ROW_PREAMBLE_WIDTH);
        }

        let mut s = String::new();
        strfmt::push_repeat(&mut s, ' ', ROW_PREAMBLE_WIDTH);

        let mut i: usize = 0;
        while i < bpl
            invariant
                i <= bpl,
                s@ == spec_repeat(' ', ROW_PREAMBLE_WIDTH as nat) + spec_col_indices(i as nat),
            decreases bpl - i,
        {
            let ghost before = s@;
            strfmt::push_hex_pad(&mut s, i as u64, 2);
            s.push(' ');
            proof {
                assert(s@ =~= before + spec_hex_pad(i as nat, 2) + seq![' ']);
                assert(s@ =~= spec_repeat(' ', ROW_PREAMBLE_WIDTH as nat) + spec_col_indices(
                    (i + 1) as nat,
                ));
            }
            i = i + 1;
        }
        s.append("|\n");
        let ghost after_header = s@;
        assert(after_header =~= spec_header_row(bpl as nat));

        strfmt::push_repeat(&mut s, '-', ROW_PREAMBLE_WIDTH + 4 * bpl);
        s.append("\n");
        let ghost after_separator = s@;
        assert(after_separator =~= spec_header_row(bpl as nat) + spec_separator_row(bpl as nat));

        let num_bytes = self.len();
        let data = self.as_slice();
        let mut pos: usize = 0;
        proof {
            assert(self@.skip(0) =~= self@);
            if num_bytes == 0 {
                assert(spec_chunks(self@, bpl as nat) =~= Seq::<Seq<u8>>::empty());
            }
            assert(s@ + spec_data_rows(spec_chunks(self@.skip(0), bpl as nat), bpl as nat, 0)
                =~= spec_hexdump(self@, window_width as nat));
        }
        while pos < num_bytes
            invariant
                pos <= num_bytes,
                num_bytes == self@.len(),
                data@ == self@,
                bpl >= 1,
                4 * bpl as int <= usize::MAX as int,
                bpl == spec_bytes_per_line(window_width as nat),
                s@ + spec_data_rows(
                    spec_chunks(self@.skip(pos as int), bpl as nat),
                    bpl as nat,
                    pos as nat,
                ) == spec_hexdump(self@, window_width as nat),
            decreases num_bytes - pos,
        {
            let ghost before = s@;
            let ghost rest = self@.skip(pos as int);
            let remaining = num_bytes - pos;
            let end = if remaining <= bpl {
                num_bytes
            } else {
                pos + bpl
            };
            push_row(&mut s, data, pos, end, bpl);
            proof {
                let chunk = self@.subrange(pos as int, end as int);
                if remaining <= bpl {
                    assert(spec_chunks(rest, bpl as nat) =~= seq![rest]);
                    assert(chunk =~= rest);
                    assert(seq![rest].drop_first() =~= Seq::<Seq<u8>>::empty());
                    assert(spec_data_rows(seq![rest], bpl as nat, pos as nat) == spec_row_text(
                        rest,
                        bpl as nat,
                        pos as nat,
                    ) + spec_data_rows(Seq::<Seq<u8>>::empty(), bpl as nat, pos as nat + bpl as nat));
                    assert(self@.skip(end as int) =~= Seq::<u8>::empty());
                    assert(spec_chunks(self@.skip(end as int), bpl as nat) =~= Seq::<
                        Seq<u8>,
                    >::empty());
                    assert(before + (spec_row_text(chunk, bpl as nat, pos as nat) + Seq::<
                        char,
                    >::empty()) =~= (before + spec_row_text(chunk, bpl as nat, pos as nat)) + Seq::<
                        char,
                    >::empty());
                    assert(s@ + spec_data_rows(
                        spec_chunks(self@.skip(end as int), bpl as nat),
                        bpl as nat,
                        end as nat,
                    ) =~= before + spec_data_rows(spec_chunks(rest, bpl as nat), bpl as nat, pos as nat));
                } else {
                    assert(rest.len() > bpl);
                    assert(spec_chunks(rest, bpl as nat) == seq![rest.take(bpl as int)]
                        + spec_chunks(rest.skip(bpl as int), bpl as nat));
                    assert(chunk =~= rest.take(bpl as int));
                    assert(rest.skip(bpl as int) =~= self@.skip(end as int));
                    let tail = spec_chunks(self@.skip(end as int), bpl as nat);
                    assert((seq![chunk] + tail).drop_first() =~= tail);
                    assert((seq![chunk] + tail)[0] == chunk);
                    assert(spec_data_rows(seq![chunk] + tail, bpl as nat, pos as nat)
                        == spec_row_text(chunk, bpl as nat, pos as nat) + spec_data_rows(
                        tail,
                        bpl as nat,
                        pos as nat + bpl as nat,
                    ));
                    assert(before + (spec_row_text(chunk, bpl as nat, pos as nat) + spec_data_rows(
                        tail,
                        bpl as nat,
                        end as nat,
                    )) =~= (before + spec_row_text(chunk, bpl as nat, pos as nat))
                        + spec_data_rows(tail, bpl as nat, end as nat));
                }
            }
            pos = end;
        }
        proof {
            assert(self@.skip(pos as int) =~= Seq::<u8>::empty());
            assert(spec_chunks(Seq::<u8>::empty(), bpl as nat) =~= Seq::<Seq<u8>>::empty());
            assert(s@ + Seq::<char>::empty() =~= s@);
        }
        s
    }
}

} // verus!
