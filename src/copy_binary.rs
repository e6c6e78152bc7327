//! The binary COPY format: a fixed header, one frame per tuple (a 2-byte
//! field count and the length-prefixed fields), and a 2-byte `-1` trailer.
use vstd::prelude::*;
use crate::bytes_be::{be16, be32, get_u16, lemma_u16_round_trip, put_u16, put_range, read_u16};
use crate::fields::{
    FieldView, FieldRead, Parsed, all_fit, field_at, fields_at, fields_bytes, fields_view,
    field_view, lemma_field_at_bounds, lemma_fields_at_bounds,
    lemma_fields_round_trip, put_fields, read_field, Values,
};

verus! {

/// Length of the header: signature, flags and extension length.
pub const HEADER_LEN: usize = 19;

/// The 2-byte value that ends the stream (`-1` as an `i16`).
pub const TRAILER: u16 = 0xFFFF;

/// The largest number of columns a tuple frame can declare (`i16::MAX`).
pub const MAX_COLUMNS: usize = 0x7FFF;

/// Size at which the writer hands out what it has gathered.
pub const CHUNK_SIZE: usize = 4096;

/// The stream header: `PGCOPY\n\xFF\r\n\0`, zero flags, zero extension length.
pub open spec fn header() -> Seq<u8> {
    seq![
        0x50u8, 0x47u8, 0x43u8, 0x4Fu8, 0x50u8, 0x59u8, 0x0Au8, 0xFFu8, 0x0Du8, 0x0Au8, 0x00u8,
        0u8, 0u8, 0u8, 0u8,
        0u8, 0u8, 0u8, 0u8,
    ]
}

/// A decoded tuple: one entry per column.
pub type RowView = Seq<FieldView>;

/// The view of a list of rows.
pub open spec fn rows_view(rs: Seq<Vec<Option<Vec<u8>>>>) -> Seq<RowView> {
    rs.map_values(|r: Vec<Option<Vec<u8>>>| fields_view(r@))
}

/// Whether every row has `ncols` fields and each field fits its slot.
pub open spec fn rows_fit(rows: Seq<RowView>, ncols: nat) -> bool {
    forall|i: int| 0 <= i < rows.len() ==> #[trigger] rows[i].len() == ncols && all_fit(rows[i])
}

/// The frame of one tuple.
pub open spec fn tuple_bytes(row: RowView) -> Seq<u8> {
    be16(row.len() as u16) + fields_bytes(row)
}

/// The frames of a list of tuples, in order.
pub open spec fn tuples_bytes(rows: Seq<RowView>) -> Seq<u8>
    decreases rows.len(),
{
    if rows.len() == 0 {
        seq![]
    } else {
        tuple_bytes(rows[0]) + tuples_bytes(rows.drop_first())
    }
}

/// A whole stream: header, the tuples in order, trailer.
pub open spec fn stream_bytes(rows: Seq<RowView>) -> Seq<u8> {
    header() + tuples_bytes(rows) + be16(TRAILER)
}

/// What stands at an offset where a tuple frame may begin.
pub enum TupleParse {
    /// A complete tuple, and the offset just past it.
    Row(RowView, int),
    /// The trailer, and the offset just past it.
    Trailer(int),
    Short,
    Bad,
}

/// Reads the tuple frame (or trailer) at offset `i`, for `ncols` columns.
pub open spec fn tuple_at(b: Seq<u8>, i: int, ncols: nat) -> TupleParse {
    if i + 2 > b.len() {
        TupleParse::Short
    } else {
        let c = get_u16(b, i);
        if c == TRAILER {
            TupleParse::Trailer(i + 2)
        } else if c != ncols {
            TupleParse::Bad
        } else {
            match fields_at(b, i + 2, ncols) {
                Parsed::Got(fs, e) => TupleParse::Row(fs, e),
                Parsed::Short => TupleParse::Short,
                Parsed::Bad => TupleParse::Bad,
            }
        }
    }
}

/// How reading tuples stopped.
pub enum End {
    /// The bytes from this offset on start a frame that is not complete yet.
    NeedMore(int),
    /// The trailer was read; the offset is just past it.
    Finished(int),
    /// The header is not that of a binary COPY stream.
    BadHeader,
    /// A frame declares the wrong field count or a negative length.
    BadTuple,
}

/// Reads tuples from offset `i` on until one is incomplete, the trailer
/// comes, or a frame is malformed.
pub open spec fn rows_from(b: Seq<u8>, i: int, ncols: nat) -> (Seq<RowView>, End)
    decreases b.len() - i,
{
    match tuple_at(b, i, ncols) {
        TupleParse::Row(fs, e) => if i < e <= b.len() {
            let (rs, end) = rows_from(b, e, ncols);
            (seq![fs] + rs, end)
        } else {
            (seq![], End::BadTuple)
        },
        TupleParse::Trailer(e) => (seq![], End::Finished(e)),
        TupleParse::Short => (seq![], End::NeedMore(i)),
        TupleParse::Bad => (seq![], End::BadTuple),
    }
}

/// Decodes a stream from its first byte: the header, then the tuples.
pub open spec fn decode(b: Seq<u8>, ncols: nat) -> (Seq<RowView>, End) {
    if b.len() < HEADER_LEN {
        (seq![], End::NeedMore(0))
    } else if b.subrange(0, HEADER_LEN as int) != header() {
        (seq![], End::BadHeader)
    } else {
        rows_from(b, HEADER_LEN as int, ncols)
    }
}

pub proof fn lemma_tuple_at_bounds(b: Seq<u8>, i: int, ncols: nat)
    requires
        0 <= i <= b.len(),
    ensures
        tuple_at(b, i, ncols) matches TupleParse::Row(fs, e) ==> i + 2 <= e <= b.len() && fs.len()
            == ncols,
{
    if i + 2 <= b.len() {
        lemma_fields_at_bounds(b, i + 2, ncols);
    }
}

/// Where reading tuples from offset `i` can stop for more input.
pub proof fn lemma_rows_from_bounds(b: Seq<u8>, i: int, ncols: nat)
    requires
        0 <= i <= b.len(),
    ensures
        rows_from(b, i, ncols).1 matches End::NeedMore(p) ==> i <= p <= b.len(),
    decreases b.len() - i,
{
    if let TupleParse::Row(_, e) = tuple_at(b, i, ncols) {
        if i < e <= b.len() {
            lemma_rows_from_bounds(b, e, ncols);
        }
    }
}

proof fn lemma_zero_be32()
    ensures
        be32(0) == seq![0u8, 0u8, 0u8, 0u8],
{
    assert((0u32 >> 24u32) as u8 == 0 && (0u32 >> 16u32) as u8 == 0 && (0u32 >> 8u32) as u8 == 0
        && 0u32 as u8 == 0) by (bit_vector);
    assert(be32(0) =~= seq![0u8, 0u8, 0u8, 0u8]);
}

proof fn lemma_tuples_push(rows: Seq<RowView>, r: RowView)
    ensures
        tuples_bytes(rows.push(r)) == tuples_bytes(rows) + tuple_bytes(r),
    decreases rows.len(),
{
    if rows.len() == 0 {
        assert(rows.push(r).drop_first() =~= seq![]);
        assert(tuples_bytes(rows.push(r)) =~= tuple_bytes(r) + tuples_bytes(seq![]));
    } else {
        lemma_tuples_push(rows.drop_first(), r);
        assert(rows.push(r).drop_first() =~= rows.drop_first().push(r));
        assert(tuples_bytes(rows.push(r)) =~= tuples_bytes(rows) + tuple_bytes(r));
    }
}

proof fn lemma_rows_round_trip(pre: Seq<u8>, rows: Seq<RowView>, ncols: nat, rest: Seq<u8>)
    requires
        rows_fit(rows, ncols),
        ncols <= MAX_COLUMNS,
    ensures
        rows_from(pre + tuples_bytes(rows) + be16(TRAILER) + rest, pre.len() as int, ncols) == (
            rows,
            End::Finished((pre.len() + tuples_bytes(rows).len() + 2) as int),
        ),
    decreases rows.len(),
{
    let b = pre + tuples_bytes(rows) + be16(TRAILER) + rest;
    let p = pre.len() as int;
    if rows.len() == 0 {
        assert(b.subrange(p, b.len() as int) =~= be16(TRAILER) + rest);
        lemma_u16_round_trip(TRAILER, rest);
        assert(get_u16(b, p) == get_u16(b.subrange(p, b.len() as int), 0));
        assert(rows =~= seq![]);
    } else {
        let r = rows[0];
        let more = rows.drop_first();
        assert(r.len() == ncols && all_fit(r));
        assert(rows_fit(more, ncols)) by {
            assert forall|i: int| 0 <= i < more.len() implies #[trigger] more[i].len() == ncols
                && all_fit(more[i]) by {
                assert(more[i] == rows[i + 1]);
            }
        }
        let after = tuples_bytes(more) + be16(TRAILER) + rest;
        assert(b =~= pre + be16(ncols as u16) + fields_bytes(r) + after);
        assert(b.subrange(p, b.len() as int) =~= be16(ncols as u16) + (fields_bytes(r) + after));
        lemma_u16_round_trip(ncols as u16, fields_bytes(r) + after);
        assert(get_u16(b, p) == get_u16(b.subrange(p, b.len() as int), 0));
        lemma_fields_round_trip(pre + be16(ncols as u16), r, after);
        let e = p + 2 + fields_bytes(r).len();
        assert(tuple_at(b, p, ncols) == TupleParse::Row(r, e));
        let pre2 = pre + tuple_bytes(r);
        assert(b =~= pre2 + tuples_bytes(more) + be16(TRAILER) + rest);
        lemma_rows_round_trip(pre2, more, ncols, rest);
        assert(seq![r] + more =~= rows);
    }
}

/// `e` with its offset, if it has one, moved forward by `d`.
pub open spec fn shift_end(e: End, d: int) -> End {
    match e {
        End::NeedMore(p) => End::NeedMore(p + d),
        End::Finished(p) => End::Finished(p + d),
        _ => e,
    }
}

pub open spec fn shift_tuple(t: TupleParse, d: int) -> TupleParse {
    match t {
        TupleParse::Row(fs, e) => TupleParse::Row(fs, e + d),
        TupleParse::Trailer(e) => TupleParse::Trailer(e + d),
        _ => t,
    }
}

pub open spec fn shift_parsed<T>(r: Parsed<T>, d: int) -> Parsed<T> {
    match r {
        Parsed::Got(v, e) => Parsed::Got(v, e + d),
        Parsed::Short => Parsed::Short,
        Parsed::Bad => Parsed::Bad,
    }
}

proof fn lemma_field_at_extend(b: Seq<u8>, y: Seq<u8>, i: int)
    requires
        0 <= i,
        !(field_at(b, i) is Short),
    ensures
        field_at(b + y, i) == field_at(b, i),
{
    let c = b + y;
    assert(c[i] == b[i] && c[i + 1] == b[i + 1] && c[i + 2] == b[i + 2] && c[i + 3] == b[i + 3]);
    if let Parsed::Got(Some(v), e) = field_at(b, i) {
        assert(c.subrange(i + 4, e) =~= b.subrange(i + 4, e));
    }
}

proof fn lemma_fields_at_extend(b: Seq<u8>, y: Seq<u8>, i: int, k: nat)
    requires
        0 <= i <= b.len(),
        !(fields_at(b, i, k) is Short),
    ensures
        fields_at(b + y, i, k) == fields_at(b, i, k),
    decreases k,
{
    if k > 0 {
        let k1 = (k - 1) as nat;
        lemma_fields_at_extend(b, y, i, k1);
        lemma_fields_at_bounds(b, i, k1);
        if let Parsed::Got(_, j) = fields_at(b, i, k1) {
            lemma_field_at_extend(b, y, j);
        }
    }
}

proof fn lemma_tuple_at_extend(b: Seq<u8>, y: Seq<u8>, i: int, n: nat)
    requires
        0 <= i <= b.len(),
        !(tuple_at(b, i, n) is Short),
    ensures
        tuple_at(b + y, i, n) == tuple_at(b, i, n),
{
    let c = b + y;
    assert(c[i] == b[i] && c[i + 1] == b[i + 1]);
    if get_u16(b, i) != TRAILER && get_u16(b, i) == n {
        lemma_fields_at_extend(b, y, i + 2, n);
    }
}

proof fn lemma_field_at_shift(b: Seq<u8>, p: int, j: int)
    requires
        0 <= p <= b.len(),
        0 <= j,
    ensures
        field_at(b, p + j) == shift_parsed(field_at(b.subrange(p, b.len() as int), j), p),
{
    let s = b.subrange(p, b.len() as int);
    if j + 4 <= s.len() {
        assert(s[j] == b[p + j] && s[j + 1] == b[p + j + 1] && s[j + 2] == b[p + j + 2] && s[j
            + 3] == b[p + j + 3]);
        if let Parsed::Got(Some(v), e) = field_at(s, j) {
            assert(s.subrange(j + 4, e) =~= b.subrange(p + j + 4, p + e));
        }
    }
}

proof fn lemma_fields_at_shift(b: Seq<u8>, p: int, j: int, k: nat)
    requires
        0 <= p <= b.len(),
        0 <= j <= b.len() - p,
    ensures
        fields_at(b, p + j, k) == shift_parsed(fields_at(b.subrange(p, b.len() as int), j, k), p),
    decreases k,
{
    if k > 0 {
        let s = b.subrange(p, b.len() as int);
        let k1 = (k - 1) as nat;
        lemma_fields_at_shift(b, p, j, k1);
        lemma_fields_at_bounds(s, j, k1);
        if let Parsed::Got(_, e) = fields_at(s, j, k1) {
            lemma_field_at_shift(b, p, e);
        }
    }
}

proof fn lemma_tuple_at_shift(b: Seq<u8>, p: int, j: int, n: nat)
    requires
        0 <= p <= b.len(),
        0 <= j <= b.len() - p,
    ensures
        tuple_at(b, p + j, n) == shift_tuple(tuple_at(b.subrange(p, b.len() as int), j, n), p),
{
    let s = b.subrange(p, b.len() as int);
    if j + 2 <= s.len() {
        assert(s[j] == b[p + j] && s[j + 1] == b[p + j + 1]);
        lemma_fields_at_shift(b, p, j + 2, n);
    }
}

proof fn lemma_rows_from_shift(b: Seq<u8>, p: int, j: int, n: nat)
    requires
        0 <= p <= b.len(),
        0 <= j <= b.len() - p,
    ensures
        rows_from(b, p + j, n) == ({
            let r = rows_from(b.subrange(p, b.len() as int), j, n);
            (r.0, shift_end(r.1, p))
        }),
    decreases b.len() - p - j,
{
    let s = b.subrange(p, b.len() as int);
    lemma_tuple_at_shift(b, p, j, n);
    if let TupleParse::Row(_, e) = tuple_at(s, j, n) {
        if j < e <= s.len() {
            lemma_rows_from_shift(b, p, e, n);
        }
    }
}

proof fn lemma_rows_from_extend(b: Seq<u8>, y: Seq<u8>, i: int, n: nat)
    requires
        0 <= i <= b.len(),
        rows_from(b, i, n).1 is NeedMore,
    ensures
        ({
            let p = rows_from(b, i, n).1->NeedMore_0;
            let r = rows_from(b + y, p, n);
            rows_from(b + y, i, n) == (rows_from(b, i, n).0 + r.0, r.1)
        }),
    decreases b.len() - i,
{
    let t = tuple_at(b, i, n);
    if t is Short {
        assert(rows_from(b, i, n).0 + rows_from(b + y, i, n).0 =~= rows_from(b + y, i, n).0);
    } else {
        lemma_tuple_at_extend(b, y, i, n);
        if let TupleParse::Row(fs, e) = t {
            if i < e <= b.len() {
                lemma_rows_from_extend(b, y, e, n);
                let p = rows_from(b, i, n).1->NeedMore_0;
                let r = rows_from(b + y, p, n);
                assert(seq![fs] + (rows_from(b, e, n).0 + r.0) =~= (seq![fs] + rows_from(
                    b,
                    e,
                    n,
                ).0) + r.0);
            }
        }
    }
}

/// A tuple frame split between two chunks is read as if it had come in
/// one: when reading tuples from offset `i` of `b` stops at offset `p` for
/// more input, reading from `i` of `b` followed by the next chunk `y` gives
/// the rows read so far, then those read from the leftover `b[p..]`
/// followed by `y`, and stops where that does.
pub proof fn lemma_split_chunks(b: Seq<u8>, y: Seq<u8>, i: int, n: nat)
    requires
        0 <= i <= b.len(),
        rows_from(b, i, n).1 is NeedMore,
    ensures
        ({
            let p = rows_from(b, i, n).1->NeedMore_0;
            let later = rows_from(b.subrange(p, b.len() as int) + y, 0, n);
            rows_from(b + y, i, n) == (rows_from(b, i, n).0 + later.0, shift_end(later.1, p))
        }),
{
    lemma_rows_from_extend(b, y, i, n);
    lemma_rows_from_bounds(b, i, n);
    let p = rows_from(b, i, n).1->NeedMore_0;
    let c = b + y;
    assert(c.subrange(p, c.len() as int) =~= b.subrange(p, b.len() as int) + y);
    lemma_rows_from_shift(c, p, 0, n);
}

/// Decoding the bytes of a written stream gives back the rows that were
/// written, in the order they were written, NULLs included.
pub proof fn lemma_copy_round_trip(rows: Seq<RowView>, ncols: nat)
    requires
        rows_fit(rows, ncols),
        ncols <= MAX_COLUMNS,
    ensures
        decode(stream_bytes(rows), ncols) == (rows, End::Finished(stream_bytes(rows).len() as int)),
{
    let b = stream_bytes(rows);
    assert(b =~= header() + tuples_bytes(rows) + be16(TRAILER) + seq![]);
    assert(b.subrange(0, HEADER_LEN as int) =~= header());
    lemma_rows_round_trip(header(), rows, ncols, seq![]);
}



/// What reading at an offset where a tuple frame may begin found.
pub enum TupleRead {
    Row(Values, usize),
    Trailer(usize),
    Short,
    Bad,
}

pub open spec fn tuple_read_view(r: TupleRead) -> TupleParse {
    match r {
        TupleRead::Row(fs, e) => TupleParse::Row(fields_view(fs@), e as int),
        TupleRead::Trailer(e) => TupleParse::Trailer(e as int),
        TupleRead::Short => TupleParse::Short,
        TupleRead::Bad => TupleParse::Bad,
    }
}

/// Reads the tuple frame (or trailer) at offset `i`.
pub fn read_tuple(b: &[u8], i: usize, ncols: usize) -> (r: TupleRead)
    requires
        i <= b@.len(),
    ensures
        tuple_read_view(r) == tuple_at(b@, i as int, ncols as nat),
{
    if b.len() - i < 2 {
        return TupleRead::Short;
    }
    let c = read_u16(b, i);
    if c == TRAILER {
        return TupleRead::Trailer(i + 2);
    }
    if c as usize != ncols {
        return TupleRead::Bad;
    }
    let mut fs: Values = Vec::new();
    let mut pos: usize = i + 2;
    let mut k: usize = 0;
    assert(fields_view(fs@) =~= seq![]);
    while k < ncols
        invariant
            i + 2 <= pos <= b@.len(),
            k <= ncols,
            get_u16(b@, i as int) == ncols,
            ncols != TRAILER,
            fields_at(b@, i + 2, k as nat) == Parsed::Got(fields_view(fs@), pos as int),
        decreases ncols - k,
    {
        proof { lemma_field_at_bounds(b@, pos as int); }
        match read_field(b, pos) {
            FieldRead::Got(f, e) => {
                let ghost fv = field_view(f);
                let ghost before = fs@;
                fs.push(f);
                assert(fields_view(fs@) =~= fields_view(before).push(fv)) by {
                    assert(fs@.drop_last() =~= before);
                }
                pos = e;
                k = k + 1;
            },
            FieldRead::Short => {
                proof { lemma_short_propagates(b@, i + 2, k as nat, ncols as nat); }
                return TupleRead::Short;
            },
            FieldRead::Bad => {
                proof { lemma_bad_propagates(b@, i + 2, k as nat, ncols as nat); }
                return TupleRead::Bad;
            },
        }
    }
    TupleRead::Row(fs, pos)
}

proof fn lemma_short_propagates(b: Seq<u8>, i: int, k: nat, n: nat)
    requires
        k < n,
        fields_at(b, i, k) matches Parsed::Got(_, j) && field_at(b, j) == Parsed::<FieldView>::Short,
    ensures
        fields_at(b, i, n) == Parsed::<Seq<FieldView>>::Short,
    decreases n - k,
{
    if n > k + 1 {
        lemma_short_propagates(b, i, k, (n - 1) as nat);
    }
}

proof fn lemma_bad_propagates(b: Seq<u8>, i: int, k: nat, n: nat)
    requires
        k < n,
        fields_at(b, i, k) matches Parsed::Got(_, j) && field_at(b, j) == Parsed::<FieldView>::Bad,
    ensures
        fields_at(b, i, n) == Parsed::<Seq<FieldView>>::Bad,
    decreases n - k,
{
    if n > k + 1 {
        lemma_bad_propagates(b, i, k, (n - 1) as nat);
    }
}

/// How reading tuples stopped, as a value.
pub enum EndRead {
    NeedMore(usize),
    Finished(usize),
    BadTuple,
}

pub open spec fn end_read_view(e: EndRead) -> End {
    match e {
        EndRead::NeedMore(p) => End::NeedMore(p as int),
        EndRead::Finished(p) => End::Finished(p as int),
        EndRead::BadTuple => End::BadTuple,
    }
}

/// Reads tuples from offset `start` on, as `rows_from` describes.
pub fn read_rows(b: &[u8], start: usize, ncols: usize) -> (r: (Vec<Values>, EndRead))
    requires
        start <= b@.len(),
    ensures
        (rows_view(r.0@), end_read_view(r.1)) == rows_from(b@, start as int, ncols as nat),
{
    let mut rows: Vec<Values> = Vec::new();
    let mut pos: usize = start;
    loop
        invariant
            start <= pos <= b@.len(),
            rows_from(b@, start as int, ncols as nat) == (rows_view(rows@) + rows_from(
                b@,
                pos as int,
                ncols as nat,
            ).0, rows_from(b@, pos as int, ncols as nat).1),
        decreases b@.len() - pos,
    {
        proof { lemma_tuple_at_bounds(b@, pos as int, ncols as nat); }
        match read_tuple(b, pos, ncols) {
            TupleRead::Row(fs, e) => {
                let ghost fv = fields_view(fs@);
                let ghost old_rows = rows@;
                let ghost rest = rows_from(b@, e as int, ncols as nat);
                rows.push(fs);
                assert(rows_view(rows@) =~= rows_view(old_rows).push(fv)) by {
                    assert(rows_view(rows@) =~= rows_view(rows@.drop_last()).push(fv));
                    assert(rows@.drop_last() =~= old_rows);
                }
                assert(rows_view(old_rows) + (seq![fv] + rest.0) =~= rows_view(rows@) + rest.0);
                pos = e;
            },
            TupleRead::Trailer(e) => {
                return (rows, EndRead::Finished(e));
            },
            TupleRead::Short => {
                return (rows, EndRead::NeedMore(pos));
            },
            TupleRead::Bad => {
                return (rows, EndRead::BadTuple);
            },
        }
    }
}


/// Appends the frame of one tuple.
pub fn put_tuple(out: &mut Vec<u8>, row: &Values)
    requires
        row@.len() <= MAX_COLUMNS,
        all_fit(fields_view(row@)),
    ensures
        final(out)@ == old(out)@ + tuple_bytes(fields_view(row@)),
{
    put_u16(out, row.len() as u16);
    put_fields(out, row);
    assert(final(out)@ =~= old(out)@ + tuple_bytes(fields_view(row@)));
}

/// Writes rows in the binary COPY format, handing out the bytes in chunks
/// of at least `CHUNK_SIZE` so that no more than one chunk and one row are
/// held at a time.
pub struct BinaryCopyInWriter {
    /// The number of columns of every row.
    pub ncols: usize,
    /// Bytes gathered and not yet handed out.
    pub buf: Vec<u8>,
    /// Every byte handed out so far, in order.
    pub sent: Ghost<Seq<u8>>,
    /// Every row written so far, in order.
    pub rows: Ghost<Seq<RowView>>,
}

impl BinaryCopyInWriter {
    pub open spec fn wf(&self) -> bool {
        &&& self.ncols <= MAX_COLUMNS
        &&& self.buf@.len() < CHUNK_SIZE
        &&& self.sent@ + self.buf@ == header() + tuples_bytes(self.rows@)
        &&& rows_fit(self.rows@, self.ncols as nat)
    }

    /// A writer for rows of `ncols` columns; the header is its first output.
    pub fn new(ncols: usize) -> (w: Self)
        requires
            ncols <= MAX_COLUMNS,
        ensures
            w.wf(),
            w.ncols == ncols,
            w.rows@ == Seq::<RowView>::empty(),
            w.sent@ == Seq::<u8>::empty(),
    {
        let mut buf: Vec<u8> = Vec::new();
        put_signature(&mut buf);
        crate::bytes_be::put_u32(&mut buf, 0);
        crate::bytes_be::put_u32(&mut buf, 0);
        proof { lemma_zero_be32(); }
        assert(buf@ =~= header());
        BinaryCopyInWriter { ncols, buf, sent: Ghost(Seq::empty()), rows: Ghost(Seq::empty()) }
    }

    /// Writes one row. Returns the gathered bytes once they reach
    /// `CHUNK_SIZE`; the caller sends them before writing more.
    pub fn write(&mut self, row: &Values) -> (r: Option<Vec<u8>>)
        requires
            old(self).wf(),
            row@.len() == old(self).ncols,
            all_fit(fields_view(row@)),
        ensures
            final(self).wf(),
            final(self).ncols == old(self).ncols,
            final(self).rows@ == old(self).rows@.push(fields_view(row@)),
            final(self).sent@ == old(self).sent@ + match r {
                Some(c) => c@,
                None => Seq::<u8>::empty(),
            },
            r is Some <==> old(self).buf@.len() + tuple_bytes(fields_view(row@)).len()
                >= CHUNK_SIZE,
    {
        let ghost rv = fields_view(row@);
        let ghost old_rows = self.rows@;
        proof { lemma_tuples_push(old_rows, rv); }
        put_tuple(&mut self.buf, row);
        assert(self.buf@ == old(self).buf@ + tuple_bytes(rv));
        self.rows = Ghost(old_rows.push(rv));
        assert(tuples_bytes(self.rows@) == tuples_bytes(old_rows) + tuple_bytes(rv));
        assert(old(self).sent@ + old(self).buf@ == header() + tuples_bytes(old_rows));
        assert(self.sent@ == old(self).sent@);
        assert(self.sent@ + self.buf@ =~= (old(self).sent@ + old(self).buf@) + tuple_bytes(rv));
        assert(header() + tuples_bytes(self.rows@) =~= (header() + tuples_bytes(old_rows))
            + tuple_bytes(rv));
        assert(rows_fit(self.rows@, self.ncols as nat)) by {
            assert forall|i: int| 0 <= i < self.rows@.len() implies #[trigger] self.rows@[i].len()
                == self.ncols && all_fit(self.rows@[i]) by {
                if i < old(self).rows@.len() {
                    assert(self.rows@[i] == old(self).rows@[i]);
                }
            }
        }
        if self.buf.len() >= CHUNK_SIZE {
            let mut chunk: Vec<u8> = Vec::new();
            std::mem::swap(&mut chunk, &mut self.buf);
            self.sent = Ghost(self.sent@ + chunk@);
            assert(self.sent@ + self.buf@ =~= self.sent@);
            Some(chunk)
        } else {
            assert(old(self).sent@ + Seq::<u8>::empty() =~= old(self).sent@);
            None
        }
    }

    /// Ends the stream: what is still gathered, then the trailer.
    pub fn finish(self) -> (r: Vec<u8>)
        requires
            self.wf(),
        ensures
            self.sent@ + r@ == stream_bytes(self.rows@),
    {
        let mut out = self.buf;
        put_u16(&mut out, TRAILER);
        assert(self.sent@ + out@ =~= stream_bytes(self.rows@));
        out
    }
}

/// Appends the 11-byte signature that opens the header.
fn put_signature(out: &mut Vec<u8>)
    ensures
        final(out)@ == old(out)@ + header().subrange(0, 11),
{
    out.push(0x50u8);
    out.push(0x47u8);
    out.push(0x43u8);
    out.push(0x4Fu8);
    out.push(0x50u8);
    out.push(0x59u8);
    out.push(0x0Au8);
    out.push(0xFFu8);
    out.push(0x0Du8);
    out.push(0x0Au8);
    out.push(0x00u8);
    assert(final(out)@ =~= old(out)@ + header().subrange(0, 11));
}

/// Whether the first `HEADER_LEN` bytes are the header.
fn header_matches(b: &[u8]) -> (r: bool)
    requires
        b@.len() >= HEADER_LEN,
    ensures
        r == (b@.subrange(0, HEADER_LEN as int) == header()),
{
    let mut expected: Vec<u8> = Vec::new();
    put_signature(&mut expected);
    crate::bytes_be::put_u32(&mut expected, 0);
    crate::bytes_be::put_u32(&mut expected, 0);
    proof { lemma_zero_be32(); }
    assert(expected@ =~= header());
    let mut i: usize = 0;
    while i < HEADER_LEN
        invariant
            i <= HEADER_LEN <= b@.len(),
            expected@ == header(),
            forall|j: int| 0 <= j < i ==> b@[j] == header()[j],
        decreases HEADER_LEN - i,
    {
        if b[i] != expected[i] {
            assert(b@.subrange(0, HEADER_LEN as int)[i as int] != header()[i as int]);
            return false;
        }
        i = i + 1;
    }
    assert(b@.subrange(0, HEADER_LEN as int) =~= header());
    true
}

/// Where a reader stands.
#[derive(PartialEq, Eq, Structural)]
pub enum Phase {
    /// The header has not been read yet.
    Header,
    /// Between tuples: the leftover bytes start a frame.
    Body,
    /// The trailer was read.
    Finished,
    /// The input was malformed.
    Failed,
}

/// Why a stream could not be decoded.
#[derive(PartialEq, Eq, Structural, Debug, Clone, Copy)]
pub enum CopyError {
    /// The header is not that of a binary COPY stream.
    BadHeader,
    /// A frame declares the wrong field count or a negative length.
    BadTuple,
}

/// Decodes a binary COPY stream delivered in chunks of any size; a frame
/// split between chunks is kept until the rest of it arrives.
pub struct BinaryCopyOutReader {
    /// The number of columns of every row.
    pub ncols: usize,
    pub phase: Phase,
    /// Bytes received and not yet decoded.
    pub residual: Vec<u8>,
}

/// What a reader in `phase`, holding `residual`, reads from its bytes and
/// the next chunk.
pub open spec fn feed_result(phase: Phase, residual: Seq<u8>, chunk: Seq<u8>, ncols: nat) -> (
    Seq<RowView>,
    End,
) {
    if phase == Phase::Header {
        decode(residual + chunk, ncols)
    } else {
        rows_from(residual + chunk, 0, ncols)
    }
}

impl BinaryCopyOutReader {
    /// A reader for rows of `ncols` columns, waiting for the header.
    pub fn new(ncols: usize) -> (r: Self)
        ensures
            r.ncols == ncols,
            r.phase == Phase::Header,
            r.residual@ == Seq::<u8>::empty(),
    {
        BinaryCopyOutReader { ncols, phase: Phase::Header, residual: Vec::new() }
    }

    /// Whether the stream has ended, by its trailer or by an error.
    pub fn is_done(&self) -> (r: bool)
        ensures
            r == (self.phase == Phase::Finished || self.phase == Phase::Failed),
    {
        match self.phase {
            Phase::Finished | Phase::Failed => true,
            _ => false,
        }
    }

    /// Takes the next chunk of the stream. Returns the rows completed by
    /// it, in order, and the error that ended the stream, if one did.
    pub fn feed(&mut self, chunk: &[u8]) -> (r: (Vec<Values>, Option<CopyError>))
        requires
            old(self).phase == Phase::Header || old(self).phase == Phase::Body,
        ensures
            final(self).ncols == old(self).ncols,
            ({
                let b = old(self).residual@ + chunk@;
                let (rows, end) = feed_result(
                    old(self).phase,
                    old(self).residual@,
                    chunk@,
                    old(self).ncols as nat,
                );
                &&& rows_view(r.0@) == rows
                &&& match end {
                    End::NeedMore(p) => {
                        &&& r.1 is None
                        &&& final(self).residual@ == b.subrange(p, b.len() as int)
                        &&& final(self).phase == if old(self).phase == Phase::Header && b.len()
                            < HEADER_LEN {
                            Phase::Header
                        } else {
                            Phase::Body
                        }
                    },
                    End::Finished(_) => r.1 is None && final(self).phase == Phase::Finished,
                    End::BadHeader => r.1 == Some(CopyError::BadHeader) && final(self).phase
                        == Phase::Failed,
                    End::BadTuple => r.1 == Some(CopyError::BadTuple) && final(self).phase
                        == Phase::Failed,
                }
            }),
    {
        let mut b: Vec<u8> = Vec::new();
        std::mem::swap(&mut b, &mut self.residual);
        put_range(&mut b, chunk, 0, chunk.len());
        assert(b@ =~= old(self).residual@ + chunk@.subrange(0, chunk@.len() as int));
        assert(chunk@.subrange(0, chunk@.len() as int) =~= chunk@);
        let start: usize = if self.phase == Phase::Header {
            if b.len() < HEADER_LEN {
                assert(b@.subrange(0, b@.len() as int) =~= b@);
                self.residual = b;
                return (Vec::new(), None);
            }
            if !header_matches(b.as_slice()) {
                self.phase = Phase::Failed;
                return (Vec::new(), Some(CopyError::BadHeader));
            }
            HEADER_LEN
        } else {
            0
        };
        proof { lemma_rows_from_bounds(b@, start as int, self.ncols as nat); }
        let (rows, end) = read_rows(b.as_slice(), start, self.ncols);
        match end {
            EndRead::NeedMore(p) => {
                let mut rest: Vec<u8> = Vec::new();
                put_range(&mut rest, b.as_slice(), p, b.len());
                assert(rest@ =~= b@.subrange(p as int, b@.len() as int));
                self.residual = rest;
                self.phase = Phase::Body;
                (rows, None)
            },
            EndRead::Finished(_) => {
                self.phase = Phase::Finished;
                (rows, None)
            },
            EndRead::BadTuple => {
                self.phase = Phase::Failed;
                (rows, Some(CopyError::BadTuple))
            },
        }
    }
}

} // verus!
