//! The offset table that follows the header, and the blobs it addresses.
//!
//! A table holds the slot count, the block size and one absolute offset per
//! slot (relative to the end of the header). A `LogoImage` is a table
//! together with the raw, still-compressed payload of every slot.
use vstd::prelude::*;

use crate::byteio::{
    lemma_u32_bytes_round_trip, push_u32_le, read_u32_le, u32_le, u32_le_bytes,
};
use crate::errors::FormatError;
use crate::header::{
    lemma_header_read_prefix, spec_header_bytes, spec_header_read, MtkHeader, MtkType, HEADER_SIZE,
};

verus! {

/// The logo container's table: header plus per-slot offsets.
pub struct LogoTable {
    /// The 512-byte preamble.
    pub header: MtkHeader,
    /// Number of slots.
    pub logo_count: u32,
    /// Total size of table words and blob bytes; must equal `header.size`.
    pub block_size: u32,
    /// Offset of each blob, counted from the end of the header.
    pub offsets: Vec<u32>,
}

/// The whole logo image: table plus one raw compressed blob per slot.
pub struct LogoImage {
    pub table: LogoTable,
    pub blobs: Vec<Vec<u8>>,
}

/// Mathematical image of a `LogoTable`.
pub ghost struct TableView {
    pub header: MtkHeader,
    pub logo_count: u32,
    pub block_size: u32,
    pub offsets: Seq<u32>,
}

/// Mathematical image of a `LogoImage`.
pub ghost struct ImageView {
    pub table: TableView,
    pub blobs: Seq<Seq<u8>>,
}

impl View for LogoTable {
    type V = TableView;

    open spec fn view(&self) -> TableView {
        TableView {
            header: self.header,
            logo_count: self.logo_count,
            block_size: self.block_size,
            offsets: self.offsets@,
        }
    }
}

impl View for LogoImage {
    type V = ImageView;

    open spec fn view(&self) -> ImageView {
        ImageView { table: self.table@, blobs: self.blobs.deep_view() }
    }
}

/// The little-endian serialization of a sequence of offsets.
pub open spec fn offsets_bytes(offs: Seq<u32>) -> Seq<u8>
    decreases offs.len(),
{
    if offs.len() == 0 {
        Seq::empty()
    } else {
        u32_le_bytes(offs[0]) + offsets_bytes(offs.drop_first())
    }
}

pub proof fn lemma_offsets_bytes_len(offs: Seq<u32>)
    ensures
        offsets_bytes(offs).len() == 4 * offs.len(),
    decreases offs.len(),
{
    if offs.len() > 0 {
        lemma_offsets_bytes_len(offs.drop_first());
    }
}

pub proof fn lemma_offsets_bytes_push(offs: Seq<u32>, x: u32)
    ensures
        offsets_bytes(offs.push(x)) == offsets_bytes(offs) + u32_le_bytes(x),
    decreases offs.len(),
{
    if offs.len() == 0 {
        reveal_with_fuel(offsets_bytes, 2);
        assert(offs.push(x).drop_first() =~= Seq::<u32>::empty());
        assert(offsets_bytes(offs.push(x)) =~= offsets_bytes(offs) + u32_le_bytes(x));
    } else {
        assert(offs.push(x).drop_first() =~= offs.drop_first().push(x));
        lemma_offsets_bytes_push(offs.drop_first(), x);
        assert(offsets_bytes(offs.push(x)) =~= offsets_bytes(offs) + u32_le_bytes(x));
    }
}

pub proof fn lemma_offsets_bytes_index(offs: Seq<u32>, i: int)
    requires
        0 <= i < offs.len(),
    ensures
        offsets_bytes(offs).subrange(4 * i, 4 * i + 4) =~= u32_le_bytes(offs[i]),
    decreases i,
{
    lemma_offsets_bytes_len(offs.drop_first());
    if i == 0 {
        assert(offsets_bytes(offs).subrange(0, 4) =~= u32_le_bytes(offs[0]));
    } else {
        lemma_offsets_bytes_index(offs.drop_first(), i - 1);
        assert(offsets_bytes(offs).subrange(4 * i, 4 * i + 4) =~= offsets_bytes(
            offs.drop_first(),
        ).subrange(4 * (i - 1), 4 * (i - 1) + 4));
    }
}

/// The exact bytes that writing a table emits: header, slot count, block
/// size, then each offset, all little-endian.
pub open spec fn spec_table_bytes(t: TableView) -> Seq<u8> {
    spec_header_bytes(t.header) + u32_le_bytes(t.logo_count) + u32_le_bytes(t.block_size)
        + offsets_bytes(t.offsets)
}

/// The result of reading a table from the start of a byte stream.
pub open spec fn spec_table_read(s: Seq<u8>) -> Result<TableView, FormatError> {
    match spec_header_read(s) {
        Err(e) => Err(e),
        Ok(h) => {
            if h.mtk_type != MtkType::LOGO {
                Err(FormatError::NotALogo)
            } else if s.len() < HEADER_SIZE + 8 {
                Err(FormatError::Truncated)
            } else {
                let n = u32_le(s.subrange(HEADER_SIZE as int, HEADER_SIZE + 4));
                let bs = u32_le(s.subrange(HEADER_SIZE + 4, HEADER_SIZE + 8));
                if bs != h.size {
                    Err(FormatError::SizeMismatch)
                } else if s.len() < HEADER_SIZE + 8 + 4 * (n as int) {
                    Err(FormatError::Truncated)
                } else {
                    Ok(
                        TableView {
                            header: h,
                            logo_count: n,
                            block_size: bs,
                            offsets: Seq::new(
                                n as nat,
                                |i: int|
                                    u32_le(
                                        s.subrange(
                                            HEADER_SIZE + 8 + 4 * i,
                                            HEADER_SIZE + 8 + 4 * i + 4,
                                        ),
                                    ),
                            ),
                        },
                    )
                }
            }
        },
    }
}

/// Where slot `i`'s blob ends: the next slot's offset, or the block size for
/// the last slot.
pub open spec fn spec_blob_end(t: TableView, i: int) -> int
    recommends
        0 <= i < t.offsets.len(),
{
    if i + 1 < t.offsets.len() {
        t.offsets[i + 1] as int
    } else {
        t.block_size as int
    }
}

/// The result of extracting slot `i`'s blob from a container stream.
pub open spec fn spec_read_blob(t: TableView, s: Seq<u8>, i: int) -> Result<Seq<u8>, FormatError>
    recommends
        0 <= i < t.offsets.len(),
{
    let start = t.offsets[i] as int;
    let end = spec_blob_end(t, i);
    if end < start {
        Err(FormatError::BadOffsets)
    } else if s.len() < HEADER_SIZE + end {
        Err(FormatError::Truncated)
    } else {
        Ok(s.subrange(HEADER_SIZE + start, HEADER_SIZE + end))
    }
}

/// The result of extracting every blob from slot `i` on: the blobs in slot
/// order, or the first slot's error.
pub open spec fn spec_read_blobs_from(t: TableView, s: Seq<u8>, i: int) -> Result<
    Seq<Seq<u8>>,
    FormatError,
>
    decreases t.offsets.len() - i,
{
    if i < 0 || i >= t.offsets.len() {
        Ok(Seq::empty())
    } else {
        match spec_read_blob(t, s, i) {
            Err(e) => Err(e),
            Ok(b) => match spec_read_blobs_from(t, s, i + 1) {
                Err(e) => Err(e),
                Ok(rest) => Ok(Seq::empty().push(b) + rest),
            },
        }
    }
}

/// If every slot from `i` on extracts, the combined extraction succeeds and
/// lists the blobs in slot order.
pub proof fn lemma_read_blobs_from_ok(t: TableView, s: Seq<u8>, i: int)
    requires
        0 <= i <= t.offsets.len(),
        forall|j: int| i <= j < t.offsets.len() ==> spec_read_blob(t, s, j) is Ok,
    ensures
        spec_read_blobs_from(t, s, i) == Ok::<Seq<Seq<u8>>, FormatError>(
            Seq::new((t.offsets.len() - i) as nat, |m: int| spec_read_blob(t, s, i + m)->Ok_0),
        ),
    decreases t.offsets.len() - i,
{
    let n = t.offsets.len() as int;
    if i == n {
        assert(Seq::new(0nat, |m: int| spec_read_blob(t, s, i + m)->Ok_0) =~= Seq::<
            Seq<u8>,
        >::empty());
    } else {
        lemma_read_blobs_from_ok(t, s, i + 1);
        let whole = Seq::new((n - i) as nat, |m: int| spec_read_blob(t, s, i + m)->Ok_0);
        let rest = Seq::new((n - i - 1) as nat, |m: int| spec_read_blob(t, s, i + 1 + m)->Ok_0);
        assert(Seq::empty().push(spec_read_blob(t, s, i)->Ok_0) + rest =~= whole);
    }
}

/// If the slots up to `k` extract and slot `k` fails, the combined
/// extraction fails with slot `k`'s error.
pub proof fn lemma_read_blobs_from_err(t: TableView, s: Seq<u8>, i: int, k: int)
    requires
        0 <= i <= k < t.offsets.len(),
        forall|j: int| i <= j < k ==> spec_read_blob(t, s, j) is Ok,
        spec_read_blob(t, s, k) is Err,
    ensures
        spec_read_blobs_from(t, s, i) == Err::<Seq<Seq<u8>>, FormatError>(
            spec_read_blob(t, s, k)->Err_0,
        ),
    decreases k - i,
{
    if i < k {
        lemma_read_blobs_from_err(t, s, i + 1, k);
    }
}

/// The result of reading a whole logo image: the table, then every blob.
pub open spec fn spec_image_read(s: Seq<u8>) -> Result<ImageView, FormatError> {
    match spec_table_read(s) {
        Err(e) => Err(e),
        Ok(t) => match spec_read_blobs_from(t, s, 0) {
            Err(e) => Err(e),
            Ok(blobs) => Ok(ImageView { table: t, blobs }),
        },
    }
}

/// The exact bytes that writing a whole image emits: the table, then every
/// blob, concatenated without padding.
pub open spec fn blobs_bytes(bs: Seq<Seq<u8>>) -> Seq<u8>
    decreases bs.len(),
{
    if bs.len() == 0 {
        Seq::empty()
    } else {
        bs[0] + blobs_bytes(bs.drop_first())
    }
}

pub open spec fn spec_image_bytes(v: ImageView) -> Seq<u8> {
    spec_table_bytes(v.table) + blobs_bytes(v.blobs)
}

/// Sum of the lengths of a sequence of byte buffers.
pub open spec fn sum_lens(bs: Seq<Seq<u8>>) -> int
    decreases bs.len(),
{
    if bs.len() == 0 {
        0
    } else {
        bs[0].len() + sum_lens(bs.drop_first())
    }
}

pub proof fn lemma_sum_lens_nonneg(bs: Seq<Seq<u8>>)
    ensures
        0 <= sum_lens(bs),
    decreases bs.len(),
{
    if bs.len() > 0 {
        lemma_sum_lens_nonneg(bs.drop_first());
    }
}

pub proof fn lemma_sum_lens_push(bs: Seq<Seq<u8>>, x: Seq<u8>)
    ensures
        sum_lens(bs.push(x)) == sum_lens(bs) + x.len(),
    decreases bs.len(),
{
    if bs.len() == 0 {
        reveal_with_fuel(sum_lens, 2);
        assert(bs.push(x).drop_first() =~= Seq::<Seq<u8>>::empty());
    } else {
        assert(bs.push(x).drop_first() =~= bs.drop_first().push(x));
        lemma_sum_lens_push(bs.drop_first(), x);
    }
}

/// Splitting a sequence splits the sum of its lengths.
pub proof fn lemma_sum_lens_split(bs: Seq<Seq<u8>>, i: int)
    requires
        0 <= i <= bs.len(),
    ensures
        sum_lens(bs) == sum_lens(bs.take(i)) + sum_lens(bs.skip(i)),
    decreases i,
{
    if i == 0 {
        assert(bs.take(0) =~= Seq::<Seq<u8>>::empty());
        assert(bs.skip(0) =~= bs);
    } else {
        lemma_sum_lens_split(bs, i - 1);
        assert(bs.take(i) =~= bs.take(i - 1).push(bs[i - 1]));
        lemma_sum_lens_push(bs.take(i - 1), bs[i - 1]);
        assert(bs.skip(i - 1).drop_first() =~= bs.skip(i));
        assert(sum_lens(bs.skip(i - 1)) == bs[i - 1].len() + sum_lens(bs.skip(i)));
    }
}

pub proof fn lemma_blobs_bytes_len(bs: Seq<Seq<u8>>)
    ensures
        blobs_bytes(bs).len() == sum_lens(bs),
    decreases bs.len(),
{
    if bs.len() > 0 {
        lemma_blobs_bytes_len(bs.drop_first());
    }
}

pub proof fn lemma_blobs_bytes_push(bs: Seq<Seq<u8>>, x: Seq<u8>)
    ensures
        blobs_bytes(bs.push(x)) == blobs_bytes(bs) + x,
    decreases bs.len(),
{
    if bs.len() == 0 {
        reveal_with_fuel(blobs_bytes, 2);
        assert(bs.push(x).drop_first() =~= Seq::<Seq<u8>>::empty());
        assert(blobs_bytes(bs.push(x)) =~= blobs_bytes(bs) + x);
    } else {
        assert(bs.push(x).drop_first() =~= bs.drop_first().push(x));
        lemma_blobs_bytes_push(bs.drop_first(), x);
        assert(blobs_bytes(bs.push(x)) =~= blobs_bytes(bs) + x);
    }
}

/// Within the concatenation of all blobs, blob `i` sits between the sums of
/// the lengths before and through it.
pub proof fn lemma_blobs_bytes_index(bs: Seq<Seq<u8>>, i: int)
    requires
        0 <= i < bs.len(),
    ensures
        blobs_bytes(bs).subrange(sum_lens(bs.take(i)), sum_lens(bs.take(i + 1))) =~= bs[i],
    decreases i,
{
    lemma_sum_lens_nonneg(bs.take(i));
    lemma_blobs_bytes_len(bs);
    lemma_blobs_bytes_len(bs.drop_first());
    assert(bs.take(i + 1) =~= bs.take(i).push(bs[i]));
    lemma_sum_lens_push(bs.take(i), bs[i]);
    lemma_sum_lens_split(bs, i + 1);
    lemma_sum_lens_nonneg(bs.skip(i + 1));
    if i == 0 {
        assert(bs.take(0) =~= Seq::<Seq<u8>>::empty());
        assert(blobs_bytes(bs).subrange(0, bs[0].len() as int) =~= bs[0]);
    } else {
        lemma_blobs_bytes_index(bs.drop_first(), i - 1);
        let d = bs.drop_first();
        assert(d.take(i - 1) =~= bs.take(i).drop_first());
        assert(d.take(i) =~= bs.take(i + 1).drop_first());
        assert(sum_lens(bs.take(i)) == bs[0].len() + sum_lens(d.take(i - 1)));
        assert(sum_lens(bs.take(i + 1)) == bs[0].len() + sum_lens(d.take(i)));
        lemma_sum_lens_nonneg(d.take(i - 1));
        assert(blobs_bytes(bs).subrange(sum_lens(bs.take(i)), sum_lens(bs.take(i + 1))) =~= blobs_bytes(
            d,
        ).subrange(sum_lens(d.take(i - 1)), sum_lens(d.take(i))));
    }
}

/// Offset of the first blob: the table header words plus one offset word per
/// slot.
pub open spec fn spec_first_offset(n: int) -> int {
    (2 + n) * 4
}

/// The offset assigned to slot `i` when composing an image from blobs.
pub open spec fn spec_offset_at(bs: Seq<Seq<u8>>, i: int) -> int {
    spec_first_offset(bs.len() as int) + sum_lens(bs.take(i))
}

/// Block size of an image composed from blobs: the first offset plus all
/// blob bytes.
pub open spec fn spec_total_size(bs: Seq<Seq<u8>>) -> int {
    spec_first_offset(bs.len() as int) + sum_lens(bs)
}

/// The image that composing a list of blobs produces: derived offsets, a
/// logo header declaring the block size, and the blobs themselves.
pub open spec fn spec_from_blobs(bs: Seq<Seq<u8>>) -> ImageView
    recommends
        spec_total_size(bs) <= u32::MAX,
{
    ImageView {
        table: TableView {
            header: MtkHeader { size: spec_total_size(bs) as u32, mtk_type: MtkType::LOGO },
            logo_count: bs.len() as u32,
            block_size: spec_total_size(bs) as u32,
            offsets: Seq::new(bs.len(), |i: int| spec_offset_at(bs, i) as u32),
        },
        blobs: bs,
    }
}

impl LogoTable {
    /// Reads a table from the start of `data`.
    ///
    /// Succeeds exactly when a valid logo header opens the stream, the block
    /// size equals the header's declared size, and the stream holds all
    /// `logo_count` offset words.
    pub fn read(data: &[u8]) -> (r: Result<LogoTable, FormatError>)
        ensures
            r matches Ok(t) ==> spec_table_read(data@) == Ok::<TableView, FormatError>(t@),
            r matches Err(e) ==> spec_table_read(data@) == Err::<TableView, FormatError>(e),
    {
        let header = match MtkHeader::read(data) {
            Ok(h) => h,
            Err(e) => { return Err(e); },
        };
        match header.mtk_type {
            MtkType::LOGO => (),
            _ => { return Err(FormatError::NotALogo); },
        }
        if data.len() < HEADER_SIZE + 8 {
            return Err(FormatError::Truncated);
        }
        let logo_count = read_u32_le(data, HEADER_SIZE);
        let block_size = read_u32_le(data, HEADER_SIZE + 4);
        if block_size != header.size {
            return Err(FormatError::SizeMismatch);
        }
        let words_present = (data.len() - (HEADER_SIZE + 8)) / 4;
        proof {
            vstd::arithmetic::div_mod::lemma_fundamental_div_mod(
                data@.len() - (HEADER_SIZE + 8) as int,
                4,
            );
            vstd::arithmetic::div_mod::lemma_mod_bound(data@.len() - (HEADER_SIZE + 8) as int, 4);
        }
        if words_present < logo_count as usize {
            return Err(FormatError::Truncated);
        }
        let n = logo_count as usize;
        let mut offsets: Vec<u32> = Vec::with_capacity(n);
        let mut i: usize = 0;
        while i < n
            invariant
                i <= n,
                offsets@.len() == i,
                HEADER_SIZE + 8 + 4 * n <= data@.len(),
                data@.len() <= usize::MAX,
                forall|j: int|
                    0 <= j < i ==> offsets@[j] == u32_le(
                        data@.subrange(HEADER_SIZE + 8 + 4 * j, HEADER_SIZE + 8 + 4 * j + 4),
                    ),
            decreases n - i,
        {
            let off = read_u32_le(data, HEADER_SIZE + 8 + 4 * i);
            offsets.push(off);
            i = i + 1;
        }
        let t = LogoTable { header, logo_count, block_size, offsets };
        proof {
            let v = spec_table_read(data@)->Ok_0;
            assert(t@.offsets =~= v.offsets);
        }
        Ok(t)
    }

    /// Appends this table's exact encoding to `out`.
    pub fn write(&self, out: &mut Vec<u8>)
        ensures
            final(out)@ == old(out)@ + spec_table_bytes(self@),
    {
        self.header.write(out);
        push_u32_le(out, self.logo_count);
        push_u32_le(out, self.block_size);
        let ghost prefix = out@;
        let mut i: usize = 0;
        while i < self.offsets.len()
            invariant
                i <= self.offsets@.len(),
                out@ == prefix + offsets_bytes(self.offsets@.take(i as int)),
            decreases self.offsets@.len() - i,
        {
            push_u32_le(out, self.offsets[i]);
            proof {
                lemma_offsets_bytes_push(self.offsets@.take(i as int), self.offsets@[i as int]);
                assert(self.offsets@.take(i + 1) =~= self.offsets@.take(i as int).push(
                    self.offsets@[i as int],
                ));
            }
            i = i + 1;
        }
        proof {
            assert(self.offsets@.take(self.offsets@.len() as int) =~= self.offsets@);
            assert(final(out)@ =~= old(out)@ + spec_table_bytes(self@));
        }
    }

    /// Extracts slot `i`'s blob from a container stream.
    ///
    /// Succeeds exactly when the slot's range is forwards and lies within
    /// the stream; the blob is the raw bytes between the slot's offset and
    /// the next one (the block size for the last slot).
    pub fn read_blob(&self, data: &[u8], i: usize) -> (r: Result<Vec<u8>, FormatError>)
        requires
            i < self.offsets@.len(),
            self.offsets@.len() == self.logo_count,
        ensures
            r matches Ok(b) ==> spec_read_blob(self@, data@, i as int) == Ok::<Seq<u8>, FormatError>(
                b@,
            ),
            r matches Err(e) ==> spec_read_blob(self@, data@, i as int) == Err::<
                Seq<u8>,
                FormatError,
            >(e),
    {
        let offset = self.offsets[i];
        let next_offset = if i < (self.logo_count as usize) - 1 {
            self.offsets[i + 1]
        } else {
            self.block_size
        };
        if next_offset < offset {
            return Err(FormatError::BadOffsets);
        }
        if (data.len() as u64) < (HEADER_SIZE as u64) + (next_offset as u64) {
            return Err(FormatError::Truncated);
        }
        let start = HEADER_SIZE + offset as usize;
        let end = HEADER_SIZE + next_offset as usize;
        let piece = vstd::slice::slice_subrange(data, start, end);
        Ok(vstd::slice::slice_to_vec(piece))
    }

    /// Extracts every blob, in slot order; fails with the first slot that
    /// cannot be extracted.
    pub fn read_blobs(&self, data: &[u8]) -> (r: Result<Vec<Vec<u8>>, FormatError>)
        requires
            self.offsets@.len() == self.logo_count,
        ensures
            r matches Ok(bs) ==> spec_read_blobs_from(self@, data@, 0) == Ok::<
                Seq<Seq<u8>>,
                FormatError,
            >(bs.deep_view()),
            r matches Err(e) ==> spec_read_blobs_from(self@, data@, 0) == Err::<
                Seq<Seq<u8>>,
                FormatError,
            >(e),
    {
        let n = self.logo_count as usize;
        let mut blobs: Vec<Vec<u8>> = Vec::with_capacity(n);
        let mut i: usize = 0;
        while i < n
            invariant
                i <= n,
                n == self.offsets@.len(),
                self.offsets@.len() == self.logo_count,
                blobs@.len() == i,
                forall|j: int|
                    0 <= j < i ==> spec_read_blob(self@, data@, j) == Ok::<Seq<u8>, FormatError>(
                        blobs@[j]@,
                    ),
            decreases n - i,
        {
            match self.read_blob(data, i) {
                Ok(b) => {
                    blobs.push(b);
                },
                Err(e) => {
                    proof {
                        lemma_read_blobs_from_err(self@, data@, 0, i as int);
                    }
                    return Err(e);
                },
            }
            i = i + 1;
        }
        proof {
            lemma_read_blobs_from_ok(self@, data@, 0);
            let expected = spec_read_blobs_from(self@, data@, 0)->Ok_0;
            assert forall|m: int| 0 <= m < blobs@.len() implies blobs.deep_view()[m]
                == expected[m] by {
                assert(blobs.deep_view()[m] =~= blobs@[m]@);
            }
            assert(blobs.deep_view() =~= expected);
        }
        Ok(blobs)
    }
}

impl LogoImage {
    /// Reads a complete logo image: the table, then every blob.
    pub fn read(data: &[u8]) -> (r: Result<LogoImage, FormatError>)
        ensures
            r matches Ok(img) ==> spec_image_read(data@) == Ok::<ImageView, FormatError>(img@),
            r matches Err(e) ==> spec_image_read(data@) == Err::<ImageView, FormatError>(e),
    {
        let table = match LogoTable::read(data) {
            Ok(t) => t,
            Err(e) => { return Err(e); },
        };
        let blobs = match table.read_blobs(data) {
            Ok(bs) => bs,
            Err(e) => { return Err(e); },
        };
        Ok(LogoImage { table, blobs })
    }

    /// Composes a complete logo image from a list of blobs: the first offset
    /// sits right after the offset table, each later offset adds the
    /// preceding blob's length, and the block size is the running total
    /// after the last blob.
    pub fn new_blobs(blobs: Vec<Vec<u8>>) -> (r: LogoImage)
        requires
            spec_total_size(blobs.deep_view()) <= u32::MAX,
        ensures
            r@ == spec_from_blobs(blobs.deep_view()),
    {
        let ghost bs = blobs.deep_view();
        proof {
            lemma_sum_lens_nonneg(bs);
            assert(bs.len() == blobs@.len());
            assert((2 + bs.len() as int) * 4 <= u32::MAX);
        }
        let n = blobs.len();
        let mut offsets: Vec<u32> = Vec::with_capacity(n);
        let mut offset: u32 = ((2 + n) as u32) * 4;
        let mut i: usize = 0;
        proof {
            assert(bs.take(0) =~= Seq::<Seq<u8>>::empty());
        }
        while i < n
            invariant
                i <= n,
                n == bs.len(),
                bs == blobs.deep_view(),
                spec_total_size(bs) <= u32::MAX,
                offsets@.len() == i,
                offset == spec_offset_at(bs, i as int),
                forall|j: int| 0 <= j < i ==> offsets@[j] == spec_offset_at(bs, j) as u32,
            decreases n - i,
        {
            offsets.push(offset);
            proof {
                lemma_sum_lens_split(bs, i as int);
                lemma_sum_lens_nonneg(bs.take(i as int));
                lemma_sum_lens_nonneg(bs.skip(i as int));
                assert(bs.take(i + 1) =~= bs.take(i as int).push(bs[i as int]));
                lemma_sum_lens_push(bs.take(i as int), bs[i as int]);
                lemma_sum_lens_split(bs, i + 1);
                lemma_sum_lens_nonneg(bs.skip(i + 1));
                assert(blobs@[i as int]@ == bs[i as int]);
            }
            offset = offset + blobs[i].len() as u32;
            i = i + 1;
        }
        proof {
            assert(bs.take(n as int) =~= bs);
        }
        let block_size = offset;
        let header = MtkHeader { size: block_size, mtk_type: MtkType::LOGO };
        let table = LogoTable { header, logo_count: n as u32, block_size, offsets };
        let r = LogoImage { table, blobs };
        proof {
            assert(r@.table.offsets =~= spec_from_blobs(bs).table.offsets);
        }
        r
    }

    /// Appends this image's exact encoding to `out`: the table, then every
    /// blob, with no padding between them.
    pub fn write(&self, out: &mut Vec<u8>)
        ensures
            final(out)@ == old(out)@ + spec_image_bytes(self@),
    {
        self.table.write(out);
        let ghost prefix = out@;
        let ghost bs = self.blobs.deep_view();
        let mut i: usize = 0;
        proof {
            assert(bs.take(0) =~= Seq::<Seq<u8>>::empty());
        }
        while i < self.blobs.len()
            invariant
                i <= self.blobs@.len(),
                bs == self.blobs.deep_view(),
                out@ == prefix + blobs_bytes(bs.take(i as int)),
            decreases self.blobs@.len() - i,
        {
            out.extend_from_slice(self.blobs[i].as_slice());
            proof {
                lemma_blobs_bytes_push(bs.take(i as int), bs[i as int]);
                assert(bs.take(i + 1) =~= bs.take(i as int).push(bs[i as int]));
                assert(self.blobs@[i as int]@ == bs[i as int]);
            }
            i = i + 1;
        }
        proof {
            assert(bs.take(self.blobs@.len() as int) =~= bs);
            assert(final(out)@ =~= old(out)@ + spec_image_bytes(self@));
        }
    }
}

/// Reading a stream that opens with the encoding of a consistent logo table
/// recovers that table, whatever follows it.
#[verifier::rlimit(100)]
pub proof fn lemma_table_read_prefix(t: TableView, rest: Seq<u8>)
    requires
        t.header.mtk_type == MtkType::LOGO,
        t.block_size == t.header.size,
        t.offsets.len() == t.logo_count,
    ensures
        spec_table_read(spec_table_bytes(t) + rest) == Ok::<TableView, FormatError>(t),
{
    let s = spec_table_bytes(t) + rest;
    let tail = u32_le_bytes(t.logo_count) + u32_le_bytes(t.block_size) + offsets_bytes(t.offsets)
        + rest;
    assert(s =~= spec_header_bytes(t.header) + tail);
    lemma_header_read_prefix(t.header, tail);
    lemma_offsets_bytes_len(t.offsets);
    assert(s.subrange(HEADER_SIZE as int, HEADER_SIZE + 4) =~= u32_le_bytes(t.logo_count));
    assert(s.subrange(HEADER_SIZE + 4, HEADER_SIZE + 8) =~= u32_le_bytes(t.block_size));
    lemma_u32_bytes_round_trip(t.logo_count);
    lemma_u32_bytes_round_trip(t.block_size);
    let v = spec_table_read(s)->Ok_0;
    assert forall|i: int| 0 <= i < t.offsets.len() implies v.offsets[i] == t.offsets[i] by {
        lemma_offsets_bytes_index(t.offsets, i);
        assert(s.subrange(HEADER_SIZE + 8 + 4 * i, HEADER_SIZE + 8 + 4 * i + 4) =~= offsets_bytes(
            t.offsets,
        ).subrange(4 * i, 4 * i + 4));
        lemma_u32_bytes_round_trip(t.offsets[i]);
    }
    assert(v.offsets =~= t.offsets);
}

/// Table round trip: reading back the exact bytes written for any
/// consistent logo table recovers that table.
pub proof fn lemma_table_round_trip(t: TableView)
    requires
        t.header.mtk_type == MtkType::LOGO,
        t.block_size == t.header.size,
        t.offsets.len() == t.logo_count,
    ensures
        spec_table_read(spec_table_bytes(t)) == Ok::<TableView, FormatError>(t),
{
    lemma_table_read_prefix(t, Seq::empty());
    assert(spec_table_bytes(t) + Seq::empty() =~= spec_table_bytes(t));
}

/// Helper for the container round trip: in the serialized composed image,
/// slot `i` extracts to exactly the blob it was composed from.
#[verifier::rlimit(100)]
proof fn lemma_from_blobs_blob_extracts(bs: Seq<Seq<u8>>, i: int)
    requires
        spec_total_size(bs) <= u32::MAX,
        0 <= i < bs.len(),
    ensures
        spec_read_blob(spec_from_blobs(bs).table, spec_image_bytes(spec_from_blobs(bs)), i)
            == Ok::<Seq<u8>, FormatError>(bs[i]),
{
    let t = spec_from_blobs(bs).table;
    let s = spec_image_bytes(spec_from_blobs(bs));
    let n = bs.len() as int;
    lemma_sum_lens_nonneg(bs);
    lemma_blobs_bytes_len(bs);
    lemma_offsets_bytes_len(t.offsets);
    assert(spec_table_bytes(t).len() == HEADER_SIZE + 8 + 4 * n);
    lemma_sum_lens_split(bs, i);
    lemma_sum_lens_nonneg(bs.take(i));
    lemma_sum_lens_nonneg(bs.skip(i));
    assert(bs.take(i + 1) =~= bs.take(i).push(bs[i]));
    lemma_sum_lens_push(bs.take(i), bs[i]);
    lemma_sum_lens_split(bs, i + 1);
    lemma_sum_lens_nonneg(bs.skip(i + 1));
    assert(t.offsets[i] == spec_offset_at(bs, i) as u32);
    if i + 1 < n {
        assert(spec_blob_end(t, i) == spec_offset_at(bs, i + 1));
    } else {
        assert(bs.take(n) =~= bs);
        assert(spec_blob_end(t, i) == spec_total_size(bs));
    }
    lemma_blobs_bytes_index(bs, i);
    assert(s.subrange(
        HEADER_SIZE + spec_offset_at(bs, i),
        HEADER_SIZE + spec_offset_at(bs, i + 1),
    ) =~= blobs_bytes(bs).subrange(sum_lens(bs.take(i)), sum_lens(bs.take(i + 1))));
}

/// Container round trip: reading back the exact bytes written for an image
/// composed from any list of blobs recovers that image, blobs included.
pub proof fn lemma_container_round_trip(bs: Seq<Seq<u8>>)
    requires
        spec_total_size(bs) <= u32::MAX,
    ensures
        spec_image_read(spec_image_bytes(spec_from_blobs(bs))) == Ok::<ImageView, FormatError>(
            spec_from_blobs(bs),
        ),
{
    let v = spec_from_blobs(bs);
    let t = v.table;
    let s = spec_image_bytes(v);
    let n = bs.len() as int;
    lemma_sum_lens_nonneg(bs);
    lemma_blobs_bytes_len(bs);
    lemma_table_read_prefix(t, blobs_bytes(bs));
    assert forall|i: int| 0 <= i < n implies spec_read_blob(t, s, i) == Ok::<Seq<u8>, FormatError>(
        bs[i],
    ) by {
        lemma_from_blobs_blob_extracts(bs, i);
    }
    lemma_read_blobs_from_ok(t, s, 0);
    assert(spec_read_blobs_from(t, s, 0)->Ok_0 =~= bs);
}

/// In a composed image, the first blob sits right after the offset table
/// and the block size is the first offset plus all blob bytes.
pub proof fn lemma_from_blobs_layout(bs: Seq<Seq<u8>>)
    requires
        bs.len() >= 1,
        spec_total_size(bs) <= u32::MAX,
    ensures
        spec_from_blobs(bs).table.offsets[0] == spec_first_offset(bs.len() as int),
        spec_from_blobs(bs).table.block_size == spec_first_offset(bs.len() as int) + sum_lens(bs),
{
    assert(bs.take(0) =~= Seq::<Seq<u8>>::empty());
    lemma_sum_lens_nonneg(bs);
}

/// In an image composed from non-empty blobs, the offsets strictly increase.
pub proof fn lemma_from_blobs_offsets_increasing(bs: Seq<Seq<u8>>)
    requires
        spec_total_size(bs) <= u32::MAX,
        forall|i: int| 0 <= i < bs.len() ==> bs[i].len() >= 1,
    ensures
        forall|i: int, j: int|
            0 <= i < j < bs.len() ==> spec_from_blobs(bs).table.offsets[i] < spec_from_blobs(
                bs,
            ).table.offsets[j],
{
    let t = spec_from_blobs(bs).table;
    assert forall|i: int, j: int| 0 <= i < j < bs.len() implies t.offsets[i] < t.offsets[j] by {
        lemma_offset_at_increasing(bs, i, j);
        lemma_sum_lens_nonneg(bs.take(i));
        lemma_offset_at_bound(bs, i);
        lemma_offset_at_bound(bs, j);
    }
}

/// Helper: composed offsets grow strictly with the index when blobs are
/// non-empty.
proof fn lemma_offset_at_increasing(bs: Seq<Seq<u8>>, i: int, j: int)
    requires
        0 <= i < j < bs.len(),
        forall|k: int| 0 <= k < bs.len() ==> bs[k].len() >= 1,
    ensures
        spec_offset_at(bs, i) < spec_offset_at(bs, j),
    decreases j - i,
{
    assert(bs.take(i + 1) =~= bs.take(i).push(bs[i]));
    lemma_sum_lens_push(bs.take(i), bs[i]);
    if i + 1 < j {
        lemma_offset_at_increasing(bs, i + 1, j);
    }
}

/// Helper: every composed offset stays within the block size.
proof fn lemma_offset_at_bound(bs: Seq<Seq<u8>>, i: int)
    requires
        0 <= i < bs.len(),
        spec_total_size(bs) <= u32::MAX,
    ensures
        0 <= spec_offset_at(bs, i) <= u32::MAX,
{
    lemma_sum_lens_split(bs, i);
    lemma_sum_lens_nonneg(bs.take(i));
    lemma_sum_lens_nonneg(bs.skip(i));
}

} // verus!
