//! Undoing the per-row predictive filters of the inflated scanline stream.
//!
//! Every row of the stream is one filter-type byte followed by the filtered
//! bytes of the row. A byte is filtered against up to three neighbours that
//! are already reconstructed: `a`, one pixel to the left in the same row,
//! `b`, the byte above, and `c`, the byte above `a`. Neighbours that fall
//! outside the image count as zero; an all-zero row stands above row zero.

use vstd::prelude::*;
use crate::error::DecodeError;
use crate::error::FormatError;

verus! {

/// Distance between two integers.
pub open spec fn dist(x: int, y: int) -> int {
    if x >= y {
        x - y
    } else {
        y - x
    }
}

/// The Paeth predictor: of the left (`a`), upper (`b`) and upper-left (`c`)
/// neighbours, the one nearest to `a + b - c`, computed without wraparound.
/// Ties go to `a` first, then to `b`.
pub open spec fn paeth(a: u8, b: u8, c: u8) -> u8 {
    let p = a + b - c;
    let pa = dist(p, a as int);
    let pb = dist(p, b as int);
    let pc = dist(p, c as int);
    if pa <= pb && pa <= pc {
        a
    } else if pb <= pc {
        b
    } else {
        c
    }
}

/// Computes the Paeth predictor of three neighbouring bytes.
pub fn paeth_predictor(a: u8, b: u8, c: u8) -> (pr: u8)
    ensures
        pr == paeth(a, b, c),
{
    let p: i16 = a as i16 + b as i16 - c as i16;
    let pa: i16 = if p >= a as i16 { p - a as i16 } else { a as i16 - p };
    let pb: i16 = if p >= b as i16 { p - b as i16 } else { b as i16 - p };
    let pc: i16 = if p >= c as i16 { p - c as i16 } else { c as i16 - p };
    if pa <= pb && pa <= pc {
        a
    } else if pb <= pc {
        b
    } else {
        c
    }
}

/// The predictive filter applied to one row.
#[derive(Debug, Clone, Copy, PartialEq, Eq)]
pub enum FilterType {
    /// The bytes are stored as they are.
    Plain,
    /// Each byte is stored relative to its left neighbour.
    Sub,
    /// Each byte is stored relative to the byte above.
    Up,
    /// Each byte is stored relative to the mean of left and above.
    Average,
    /// Each byte is stored relative to its Paeth predictor.
    Paeth,
}

impl FilterType {
    /// The filter that a row's leading byte selects; bytes above four
    /// select none.
    pub open spec fn of(byte: u8) -> Option<FilterType> {
        if byte == 0 {
            Some(FilterType::Plain)
        } else if byte == 1 {
            Some(FilterType::Sub)
        } else if byte == 2 {
            Some(FilterType::Up)
        } else if byte == 3 {
            Some(FilterType::Average)
        } else if byte == 4 {
            Some(FilterType::Paeth)
        } else {
            None
        }
    }

    /// The byte that selects this filter.
    pub open spec fn code(self) -> u8 {
        match self {
            FilterType::Plain => 0,
            FilterType::Sub => 1,
            FilterType::Up => 2,
            FilterType::Average => 3,
            FilterType::Paeth => 4,
        }
    }

    /// What the filter predicts for a byte with neighbours `a`, `b`, `c`.
    /// The mean of `a` and `b` is taken of their unwrapped sum.
    pub open spec fn predict(self, a: u8, b: u8, c: u8) -> int {
        match self {
            FilterType::Plain => 0,
            FilterType::Sub => a as int,
            FilterType::Up => b as int,
            FilterType::Average => (a + b) / 2,
            FilterType::Paeth => paeth(a, b, c) as int,
        }
    }

    /// The stored byte `x` with the prediction added back, modulo 256.
    pub open spec fn restore(self, x: u8, a: u8, b: u8, c: u8) -> u8 {
        ((x + self.predict(a, b, c)) % 256) as u8
    }

    /// The pixel byte `x` with the prediction taken off, modulo 256.
    pub open spec fn store(self, x: u8, a: u8, b: u8, c: u8) -> u8 {
        ((x - self.predict(a, b, c)) % 256) as u8
    }

    /// Reads a row's leading byte.
    pub fn from_byte(byte: u8) -> (r: Option<FilterType>)
        ensures
            r == FilterType::of(byte),
    {
        match byte {
            0 => Some(FilterType::Plain),
            1 => Some(FilterType::Sub),
            2 => Some(FilterType::Up),
            3 => Some(FilterType::Average),
            4 => Some(FilterType::Paeth),
            _ => None,
        }
    }

    /// The byte that selects this filter.
    pub fn to_byte(self) -> (byte: u8)
        ensures
            byte == self.code(),
            FilterType::of(byte) == Some(self),
    {
        match self {
            FilterType::Plain => 0,
            FilterType::Sub => 1,
            FilterType::Up => 2,
            FilterType::Average => 3,
            FilterType::Paeth => 4,
        }
    }

    /// The prediction for a byte with neighbours `a`, `b`, `c`.
    fn prediction(self, a: u8, b: u8, c: u8) -> (p: u8)
        ensures
            p == self.predict(a, b, c),
    {
        match self {
            FilterType::Plain => 0,
            FilterType::Sub => a,
            FilterType::Up => b,
            FilterType::Average => ((a as u16 + b as u16) / 2) as u8,
            FilterType::Paeth => paeth_predictor(a, b, c),
        }
    }
}

/// The byte `bpp` places to the left of position `i` in `row`, or zero
/// where there is none.
pub open spec fn left_of(row: Seq<u8>, i: int, bpp: int) -> u8 {
    if i >= bpp {
        row[i - bpp]
    } else {
        0
    }
}

/// The row that `filtered` stands for under filter `ft`, given the
/// reconstructed row `prev` above it: byte by byte from the left, each with
/// its prediction added back.
pub open spec fn unfiltered(ft: FilterType, filtered: Seq<u8>, prev: Seq<u8>, bpp: int) -> Seq<u8>
    decreases filtered.len(),
{
    if filtered.len() == 0 {
        Seq::empty()
    } else {
        let i = filtered.len() - 1;
        let head = unfiltered(ft, filtered.drop_last(), prev, bpp);
        head.push(ft.restore(filtered[i], left_of(head, i, bpp), prev[i], left_of(prev, i, bpp)))
    }
}

/// The stored form of the pixel row `raw` under filter `ft`, given the
/// pixel row `prev` above it.
pub open spec fn filtered(ft: FilterType, raw: Seq<u8>, prev: Seq<u8>, bpp: int) -> Seq<u8> {
    Seq::new(
        raw.len(),
        |i: int| ft.store(raw[i], left_of(raw, i, bpp), prev[i], left_of(prev, i, bpp)),
    )
}

/// Reconstruction keeps the length of the row.
pub proof fn lemma_unfiltered_len(ft: FilterType, row: Seq<u8>, prev: Seq<u8>, bpp: int)
    ensures
        unfiltered(ft, row, prev, bpp).len() == row.len(),
    decreases row.len(),
{
    if row.len() > 0 {
        lemma_unfiltered_len(ft, row.drop_last(), prev, bpp);
    }
}

/// Each reconstructed byte is its stored byte with the prediction from its
/// reconstructed neighbours added back.
pub proof fn lemma_unfiltered_index(
    ft: FilterType,
    row: Seq<u8>,
    prev: Seq<u8>,
    bpp: int,
    i: int,
)
    requires
        bpp >= 1,
        0 <= i < row.len(),
    ensures
        unfiltered(ft, row, prev, bpp).len() == row.len(),
        unfiltered(ft, row, prev, bpp)[i] == ft.restore(
            row[i],
            left_of(unfiltered(ft, row, prev, bpp), i, bpp),
            prev[i],
            left_of(prev, i, bpp),
        ),
    decreases row.len(),
{
    lemma_unfiltered_len(ft, row, prev, bpp);
    lemma_unfiltered_len(ft, row.drop_last(), prev, bpp);
    if i < row.len() - 1 {
        lemma_unfiltered_index(ft, row.drop_last(), prev, bpp, i);
    }
}

/// A row stored with no filter is reconstructed as the stored bytes.
pub proof fn lemma_unfiltered_none(row: Seq<u8>, prev: Seq<u8>, bpp: int)
    ensures
        unfiltered(FilterType::Plain, row, prev, bpp) == row,
    decreases row.len(),
{
    if row.len() > 0 {
        lemma_unfiltered_none(row.drop_last(), prev, bpp);
        assert(row.drop_last().push(row.last()) =~= row);
    }
}

/// Reconstruction undoes filtering: for every filter and every pixel width
/// of at least one byte, a row that was filtered against the row above it
/// is reconstructed, against that same row, as it was.
pub proof fn lemma_unfilter_inverts_filter(ft: FilterType, raw: Seq<u8>, prev: Seq<u8>, bpp: int)
    requires
        bpp >= 1,
    ensures
        unfiltered(ft, filtered(ft, raw, prev, bpp), prev, bpp) == raw,
    decreases raw.len(),
{
    let stored = filtered(ft, raw, prev, bpp);
    if raw.len() > 0 {
        let i = raw.len() - 1;
        let shorter = raw.drop_last();
        assert(stored.drop_last() =~= filtered(ft, shorter, prev, bpp));
        lemma_unfilter_inverts_filter(ft, shorter, prev, bpp);
        let head = unfiltered(ft, stored.drop_last(), prev, bpp);
        assert(head == shorter);
        assert(left_of(head, i, bpp) == left_of(raw, i, bpp));
        let p = ft.predict(left_of(raw, i, bpp), prev[i], left_of(prev, i, bpp));
        assert(0 <= p < 256);
        assert(ft.restore(stored[i], left_of(raw, i, bpp), prev[i], left_of(prev, i, bpp))
            == raw[i]);
        assert(shorter.push(raw[i]) =~= raw);
    } else {
        assert(stored =~= Seq::<u8>::empty());
    }
}

/// Filtering undoes reconstruction: a stored row, reconstructed and then
/// filtered again against the same row above, is the stored row.
pub proof fn lemma_filter_inverts_unfilter(ft: FilterType, row: Seq<u8>, prev: Seq<u8>, bpp: int)
    requires
        bpp >= 1,
    ensures
        filtered(ft, unfiltered(ft, row, prev, bpp), prev, bpp) == row,
{
    let raw = unfiltered(ft, row, prev, bpp);
    lemma_unfiltered_len(ft, row, prev, bpp);
    assert forall|i: int| 0 <= i < row.len() implies #[trigger] filtered(ft, raw, prev, bpp)[i]
        == row[i] by {
        lemma_unfiltered_index(ft, row, prev, bpp, i);
        let p = ft.predict(left_of(raw, i, bpp), prev[i], left_of(prev, i, bpp));
        assert(0 <= p < 256);
    }
    assert(filtered(ft, raw, prev, bpp) =~= row);
}

/// Reconstructs one row.
///
/// `filtered_scanline` holds the row's bytes without the leading
/// filter-type byte, which is passed as `filter_type`; `previous_scanline`
/// is the reconstructed row above, all zero for the first row of an image.
/// A filter-type byte above four is refused.
pub fn unfilter_scanline(
    filter_type: u8,
    filtered_scanline: &[u8],
    previous_scanline: &[u8],
    bpp: usize,
) -> (res: Result<Vec<u8>, DecodeError>)
    requires
        bpp >= 1,
        previous_scanline.len() == filtered_scanline.len(),
    ensures
        match FilterType::of(filter_type) {
            Some(ft) => res matches Ok(row) && row@ == unfiltered(
                ft,
                filtered_scanline@,
                previous_scanline@,
                bpp as int,
            ),
            None => res == Err::<Vec<u8>, DecodeError>(
                DecodeError::Format(FormatError::InvalidFilterType),
            ),
        },
        filter_type == 0 ==> (res matches Ok(row) && row@ == filtered_scanline@),
        res matches Ok(row) ==> row.len() == filtered_scanline.len(),
{
    let ft = match FilterType::from_byte(filter_type) {
        Some(ft) => ft,
        None => {
            return Err(DecodeError::Format(FormatError::InvalidFilterType));
        },
    };
    let n = filtered_scanline.len();
    let mut row: Vec<u8> = Vec::with_capacity(n);
    let mut i: usize = 0;
    while i < n
        invariant
            bpp >= 1,
            n == filtered_scanline.len(),
            n == previous_scanline.len(),
            i <= n,
            row.len() == i,
            row@ == unfiltered(ft, filtered_scanline@.take(i as int), previous_scanline@, bpp as int),
        decreases n - i,
    {
        let a: u8 = if i >= bpp { row[i - bpp] } else { 0 };
        let b: u8 = previous_scanline[i];
        let c: u8 = if i >= bpp { previous_scanline[i - bpp] } else { 0 };
        let p: u8 = ft.prediction(a, b, c);
        let x: u8 = filtered_scanline[i];
        let value: u8 = ((x as u16 + p as u16) % 256) as u8;
        proof {
            let longer = filtered_scanline@.take(i as int + 1);
            assert(longer.drop_last() =~= filtered_scanline@.take(i as int));
            assert(longer[i as int] == x);
        }
        row.push(value);
        i = i + 1;
    }
    proof {
        assert(filtered_scanline@.take(n as int) =~= filtered_scanline@);
        if filter_type == 0 {
            lemma_unfiltered_none(filtered_scanline@, previous_scanline@, bpp as int);
        }
    }
    Ok(row)
}

/// Filters one pixel row: the forward transform that `unfilter_scanline`
/// undoes. `previous_scanline` is the pixel row above, all zero for the
/// first row of an image.
pub fn filter_scanline(
    filter: FilterType,
    scanline: &[u8],
    previous_scanline: &[u8],
    bpp: usize,
) -> (stored: Vec<u8>)
    requires
        bpp >= 1,
        previous_scanline.len() == scanline.len(),
    ensures
        stored@ == filtered(filter, scanline@, previous_scanline@, bpp as int),
        unfiltered(filter, stored@, previous_scanline@, bpp as int) == scanline@,
{
    let n = scanline.len();
    let mut stored: Vec<u8> = Vec::with_capacity(n);
    let mut i: usize = 0;
    while i < n
        invariant
            bpp >= 1,
            n == scanline.len(),
            n == previous_scanline.len(),
            i <= n,
            stored.len() == i,
            forall|k: int|
                0 <= k < i ==> stored@[k] == #[trigger] filtered(
                    filter,
                    scanline@,
                    previous_scanline@,
                    bpp as int,
                )[k],
        decreases n - i,
    {
        let a: u8 = if i >= bpp { scanline[i - bpp] } else { 0 };
        let b: u8 = previous_scanline[i];
        let c: u8 = if i >= bpp { previous_scanline[i - bpp] } else { 0 };
        let p: u8 = filter.prediction(a, b, c);
        let x: u8 = scanline[i];
        let value: u8 = ((x as u16 + 256 - p as u16) % 256) as u8;
        proof {
            assert((x + 256 - p) % 256 == (x - p) % 256);
            assert(value == filter.store(x, a, b, c));
            assert(a == left_of(scanline@, i as int, bpp as int));
            assert(c == left_of(previous_scanline@, i as int, bpp as int));
            assert(filtered(filter, scanline@, previous_scanline@, bpp as int)[i as int] == value);
        }
        stored.push(value);
        i = i + 1;
    }
    proof {
        assert(stored@ =~= filtered(filter, scanline@, previous_scanline@, bpp as int));
        lemma_unfilter_inverts_filter(filter, scanline@, previous_scanline@, bpp as int);
    }
    stored
}

/// A row of `n` zero bytes: what stands above the first row of an image.
pub open spec fn zero_row(n: int) -> Seq<u8> {
    Seq::new(n as nat, |i: int| 0u8)
}

/// Where row `r` starts in a stream whose rows hold `stride` pixel bytes.
pub open spec fn row_start(r: int, stride: int) -> int {
    r * (stride + 1)
}

/// The filter-type byte of row `r`.
pub open spec fn filter_byte(stream: Seq<u8>, r: int, stride: int) -> u8 {
    stream[row_start(r, stride)]
}

/// The stored bytes of row `r`, without its filter-type byte.
pub open spec fn stored_row(stream: Seq<u8>, r: int, stride: int) -> Seq<u8> {
    stream.subrange(row_start(r, stride) + 1, row_start(r + 1, stride))
}

/// Row `r` of the image reconstructed from `stream`, or `None` where that
/// row or one above it starts with an invalid filter-type byte. Row `-1` is
/// the all-zero row.
pub open spec fn image_row(stream: Seq<u8>, r: int, stride: int, bpp: int) -> Option<Seq<u8>>
    decreases r + 1,
{
    if r < 0 {
        Some(zero_row(stride))
    } else {
        match (image_row(stream, r - 1, stride, bpp), FilterType::of(filter_byte(stream, r, stride))) {
            (Some(prev), Some(ft)) => Some(unfiltered(ft, stored_row(stream, r, stride), prev, bpp)),
            _ => None,
        }
    }
}

/// The first `rows` rows of the image reconstructed from `stream`, one
/// after the other without their filter-type bytes, or `None` where one of
/// them starts with an invalid filter-type byte.
pub open spec fn image(stream: Seq<u8>, rows: int, stride: int, bpp: int) -> Option<Seq<u8>>
    decreases rows,
{
    if rows <= 0 {
        Some(Seq::empty())
    } else {
        match (image(stream, rows - 1, stride, bpp), image_row(stream, rows - 1, stride, bpp)) {
            (Some(above), Some(row)) => Some(above + row),
            _ => None,
        }
    }
}

/// What reconstruction makes of an inflated stream for an image of the
/// given size: the pixel buffer, or the reason why there is none.
pub open spec fn reconstructed(stream: Seq<u8>, width: int, height: int, bpp: int) -> Result<
    Seq<u8>,
    DecodeError,
> {
    if stream.len() != height * (1 + width * bpp) {
        Err(DecodeError::Format(FormatError::TruncatedImageData))
    } else {
        match image(stream, height, width * bpp, bpp) {
            Some(pixels) => Ok(pixels),
            None => Err(DecodeError::Format(FormatError::InvalidFilterType)),
        }
    }
}

/// A row can be reconstructed exactly when it and every row above it
/// start with a valid filter-type byte, and then it has `stride` bytes.
pub proof fn lemma_image_row(stream: Seq<u8>, r: int, stride: int, bpp: int)
    requires
        r >= -1,
        stride >= 0,
        stream.len() >= row_start(r + 1, stride),
    ensures
        image_row(stream, r, stride, bpp) is Some <==> (forall|k: int|
            0 <= k <= r ==> #[trigger] filter_byte(stream, k, stride) <= 4),
        image_row(stream, r, stride, bpp) matches Some(row) ==> row.len() == stride,
    decreases r + 1,
{
    if r >= 0 {
        assert(row_start(r + 1, stride) == row_start(r, stride) + stride + 1) by (nonlinear_arith);
        lemma_image_row(stream, r - 1, stride, bpp);
        if image_row(stream, r, stride, bpp) is Some {
            let ft = FilterType::of(filter_byte(stream, r, stride))->0;
            let prev = image_row(stream, r - 1, stride, bpp)->0;
            lemma_unfiltered_len(ft, stored_row(stream, r, stride), prev, bpp);
        }
    }
}

/// The first `rows` rows can be reconstructed exactly when each of them
/// starts with a valid filter-type byte, and then the buffer has `stride`
/// bytes for each row.
pub proof fn lemma_image(stream: Seq<u8>, rows: int, stride: int, bpp: int)
    requires
        rows >= 0,
        stride >= 0,
        stream.len() >= row_start(rows, stride),
    ensures
        image(stream, rows, stride, bpp) is Some <==> (forall|k: int|
            0 <= k < rows ==> #[trigger] filter_byte(stream, k, stride) <= 4),
        image(stream, rows, stride, bpp) matches Some(pixels) ==> pixels.len() == rows * stride,
    decreases rows,
{
    if rows > 0 {
        assert(row_start(rows, stride) == row_start(rows - 1, stride) + stride + 1)
            by (nonlinear_arith);
        assert(rows * stride == (rows - 1) * stride + stride) by (nonlinear_arith);
        lemma_image(stream, rows - 1, stride, bpp);
        lemma_image_row(stream, rows - 1, stride, bpp);
    }
}

/// The byte at place `i` of row `r` in a buffer of rows of `stride` bytes,
/// or zero where `r` or `i` is negative: left of and above the image all
/// is zero.
pub open spec fn pixel_byte(pixels: Seq<u8>, r: int, i: int, stride: int) -> u8 {
    if r >= 0 && i >= 0 {
        pixels[r * stride + i]
    } else {
        0
    }
}

/// Each row of the reconstructed buffer is that row reconstructed.
pub proof fn lemma_image_holds_rows(stream: Seq<u8>, rows: int, stride: int, bpp: int, r: int)
    requires
        stride >= 0,
        0 <= r < rows,
        stream.len() >= row_start(rows, stride),
        image(stream, rows, stride, bpp) is Some,
    ensures
        image_row(stream, r, stride, bpp) == Some(
            image(stream, rows, stride, bpp)->0.subrange(r * stride, (r + 1) * stride),
        ),
        image(stream, rows, stride, bpp)->0.len() == rows * stride,
    decreases rows,
{
    assert(row_start(rows, stride) == row_start(rows - 1, stride) + stride + 1)
        by (nonlinear_arith);
    assert(rows * stride == (rows - 1) * stride + stride) by (nonlinear_arith);
    lemma_image(stream, rows, stride, bpp);
    lemma_image(stream, rows - 1, stride, bpp);
    lemma_image_row(stream, rows - 1, stride, bpp);
    let above = image(stream, rows - 1, stride, bpp)->0;
    let last = image_row(stream, rows - 1, stride, bpp)->0;
    let all = image(stream, rows, stride, bpp)->0;
    assert(all == above + last);
    if r == rows - 1 {
        assert(all.subrange(r * stride, (r + 1) * stride) =~= last);
    } else {
        lemma_image_holds_rows(stream, rows - 1, stride, bpp, r);
        assert((r + 1) * stride <= (rows - 1) * stride) by (nonlinear_arith)
            requires
                r + 1 <= rows - 1,
                stride >= 0,
        ;
        assert(r * stride >= 0) by (nonlinear_arith)
            requires
                r >= 0,
                stride >= 0,
        ;
        assert((r + 1) * stride == r * stride + stride) by (nonlinear_arith);
        assert(all.subrange(r * stride, (r + 1) * stride) =~= above.subrange(
            r * stride,
            (r + 1) * stride,
        ));
    }
}

/// Every byte of the reconstructed buffer is its stored byte with the
/// prediction of its row's filter added back, modulo 256. The prediction
/// is made from the reconstructed bytes one pixel to the left, above, and
/// above one pixel to the left, each zero where it falls outside the image.
pub proof fn lemma_image_byte(stream: Seq<u8>, rows: int, stride: int, bpp: int, r: int, i: int)
    requires
        bpp >= 1,
        0 <= r < rows,
        0 <= i < stride,
        stream.len() >= row_start(rows, stride),
        image(stream, rows, stride, bpp) is Some,
    ensures
        FilterType::of(filter_byte(stream, r, stride)) is Some,
        ({
            let pixels = image(stream, rows, stride, bpp)->0;
            let ft = FilterType::of(filter_byte(stream, r, stride))->0;
            pixel_byte(pixels, r, i, stride) == ft.restore(
                stream[row_start(r, stride) + 1 + i],
                pixel_byte(pixels, r, i - bpp, stride),
                pixel_byte(pixels, r - 1, i, stride),
                pixel_byte(pixels, r - 1, i - bpp, stride),
            )
        }),
{
    let pixels = image(stream, rows, stride, bpp)->0;
    lemma_image_holds_rows(stream, rows, stride, bpp, r);
    assert(r * stride >= 0 && (r + 1) * stride == r * stride + stride && (r + 1) * stride <= rows
        * stride) by (nonlinear_arith)
        requires
            0 <= r < rows,
            stride >= 0,
    ;
    assert(row_start(r + 1, stride) == row_start(r, stride) + stride + 1 && row_start(
        r + 1,
        stride,
    ) <= row_start(rows, stride) && row_start(r, stride) >= 0) by (nonlinear_arith)
        requires
            0 <= r < rows,
            stride >= 0,
    ;
    let ft = FilterType::of(filter_byte(stream, r, stride))->0;
    let stored = stored_row(stream, r, stride);
    let above = image_row(stream, r - 1, stride, bpp)->0;
    let row = pixels.subrange(r * stride, (r + 1) * stride);
    assert(row == unfiltered(ft, stored, above, bpp));
    lemma_unfiltered_index(ft, stored, above, bpp, i);
    assert(stored[i] == stream[row_start(r, stride) + 1 + i]);
    assert(row[i] == pixels[r * stride + i]);
    if i >= bpp {
        assert(row[i - bpp] == pixels[r * stride + (i - bpp)]);
    }
    if r >= 1 {
        lemma_image_holds_rows(stream, rows, stride, bpp, r - 1);
        assert((r - 1) * stride >= 0 && (r - 1) * stride + stride == r * stride)
            by (nonlinear_arith)
            requires
                r >= 1,
                stride >= 0,
        ;
        assert(above == pixels.subrange((r - 1) * stride, r * stride));
        assert(above[i] == pixels[(r - 1) * stride + i]);
        if i >= bpp {
            assert(above[i - bpp] == pixels[(r - 1) * stride + (i - bpp)]);
        }
    } else {
        assert(above == zero_row(stride));
    }
}

/// Rebuilds the pixel buffer of an image from its inflated scanline stream.
///
/// The stream must hold exactly `height` rows of one filter-type byte and
/// `width * bpp` stored bytes each, or the decode fails as truncated. The
/// rows are reconstructed in order, each against the reconstructed row
/// above it. One invalid filter-type byte fails the whole image. The result
/// holds `height * width * bpp` bytes, row after row.
pub fn reconstruct(stream: &[u8], width: u32, height: u32, bpp: usize) -> (res: Result<
    Vec<u8>,
    DecodeError,
>)
    requires
        bpp >= 1,
    ensures
        match reconstructed(stream@, width as int, height as int, bpp as int) {
            Ok(pixels) => res matches Ok(buffer) && buffer@ == pixels,
            Err(e) => res == Err::<Vec<u8>, DecodeError>(e),
        },
        res matches Ok(buffer) ==> buffer.len() == height * (width * bpp),
        stream.len() != height * (1 + width * bpp) ==> res == Err::<Vec<u8>, DecodeError>(
            DecodeError::Format(FormatError::TruncatedImageData),
        ),
        stream.len() == height * (1 + width * bpp) && (exists|r: int|
            0 <= r < height && #[trigger] filter_byte(stream@, r, width * bpp) > 4) ==> res
            == Err::<Vec<u8>, DecodeError>(DecodeError::Format(FormatError::InvalidFilterType)),
{
    let ghost stride_int: int = width * bpp;
    proof {
        assert(0 <= width * bpp <= 0xffff_ffff * 0xffff_ffff_ffff_ffff) by (nonlinear_arith)
            requires
                0 <= width <= 0xffff_ffff,
                0 <= bpp <= 0xffff_ffff_ffff_ffff,
        ;
    }
    let row_len_wide: u128 = width as u128 * bpp as u128 + 1;
    proof {
        assert(0 <= row_len_wide * height <= 0x1_0000_0000_0000_0000_0000_0000 * 0xffff_ffff)
            by (nonlinear_arith)
            requires
                0 <= row_len_wide <= 0x1_0000_0000_0000_0000_0000_0000,
                0 <= height <= 0xffff_ffff,
        ;
        assert(row_len_wide * height == height * (1 + width * bpp)) by (nonlinear_arith)
            requires
                row_len_wide == width * bpp + 1,
        ;
    }
    let expected: u128 = row_len_wide * height as u128;
    if stream.len() as u128 != expected {
        return Err(DecodeError::Format(FormatError::TruncatedImageData));
    }
    let mut buffer: Vec<u8> = Vec::new();
    if height == 0 {
        return Ok(buffer);
    }
    proof {
        assert(row_len_wide <= row_len_wide * height) by (nonlinear_arith)
            requires
                row_len_wide >= 0,
                height >= 1,
        ;
        assert(row_start(height as int, stride_int) == stream.len()) by (nonlinear_arith)
            requires
                stream.len() == height * (1 + width * bpp),
                stride_int == width * bpp,
                row_start(height as int, stride_int) == height * (stride_int + 1),
        ;
        lemma_image(stream@, height as int, stride_int, bpp as int);
    }
    let stride: usize = (row_len_wide - 1) as usize;
    let rows: usize = height as usize;
    let mut previous: Vec<u8> = vec![0u8; stride];
    assert(previous@ =~= zero_row(stride as int));
    let mut r: usize = 0;
    let mut offset: usize = 0;
    while r < rows
        invariant
            bpp >= 1,
            rows == height,
            stride == width * bpp,
            stream.len() == height * (1 + width * bpp),
            r <= rows,
            offset == row_start(r as int, stride as int),
            stream.len() == row_start(rows as int, stride as int),
            previous.len() == stride,
            image_row(stream@, r as int - 1, stride as int, bpp as int) == Some(previous@),
            image(stream@, r as int, stride as int, bpp as int) == Some(buffer@),
            buffer.len() == r * stride,
            image(stream@, rows as int, stride as int, bpp as int) is Some <==> (forall|k: int|
                0 <= k < rows ==> #[trigger] filter_byte(stream@, k, stride as int) <= 4),
        decreases rows - r,
    {
        proof {
            assert(row_start(r as int + 1, stride as int) == row_start(r as int, stride as int)
                + stride + 1) by (nonlinear_arith);
            assert(row_start(r as int + 1, stride as int) <= row_start(
                rows as int,
                stride as int,
            )) by (nonlinear_arith)
                requires
                    r + 1 <= rows,
                    stride >= 0,
            ;
            assert((r + 1) * stride == r * stride + stride) by (nonlinear_arith);
        }
        let filter_type: u8 = stream[offset];
        let stored = vstd::slice::slice_subrange(stream, offset + 1, offset + 1 + stride);
        assert(stored@ == stored_row(stream@, r as int, stride as int));
        assert(filter_type == filter_byte(stream@, r as int, stride as int));
        match unfilter_scanline(filter_type, stored, previous.as_slice(), bpp) {
            Ok(row) => {
                buffer.extend_from_slice(row.as_slice());
                assert(buffer@ =~= image(stream@, r as int, stride as int, bpp as int)->0 + row@);
                previous = row;
            },
            Err(e) => {
                assert(filter_byte(stream@, r as int, stride as int) > 4);
                assert(image(stream@, rows as int, stride as int, bpp as int) is None);
                return Err(e);
            },
        }
        offset = offset + 1 + stride;
        r = r + 1;
    }
    proof {
        assert(height * (width * bpp) == rows * stride) by (nonlinear_arith)
            requires
                rows == height,
                stride == width * bpp,
        ;
    }
    Ok(buffer)
}

} // verus!
