//! Length-prefixed field values, shared by Bind parameters and COPY tuples:
//! a 4-byte big-endian length and that many content bytes, or the length
//! `-1` alone for SQL NULL.
use vstd::prelude::*;
use crate::bytes_be::{be32, get_u32, lemma_u32_round_trip, put_u32, put_range};

verus! {

/// The 4-byte length that stands for SQL NULL (`-1` as an `i32`).
pub const NULL_LEN: u32 = 0xFFFF_FFFF;

/// The largest content length a field can declare (`i32::MAX`).
pub const MAX_FIELD_LEN: usize = 0x7FFF_FFFF;

/// Field values as they travel: each one's bytes, or `None` for SQL NULL.
pub type Values = Vec<Option<Vec<u8>>>;

/// What a field carries: `None` for SQL NULL, else its content bytes.
pub type FieldView = Option<Seq<u8>>;

/// The view of one field value.
pub open spec fn field_view(f: Option<Vec<u8>>) -> FieldView {
    match f {
        None => None,
        Some(v) => Some(v@),
    }
}

/// The view of a list of field values.
pub open spec fn fields_view(fs: Seq<Option<Vec<u8>>>) -> Seq<FieldView> {
    fs.map_values(|f: Option<Vec<u8>>| field_view(f))
}

/// Whether a field fits in a length-prefixed slot.
pub open spec fn field_fits(f: FieldView) -> bool {
    match f {
        None => true,
        Some(v) => v.len() <= MAX_FIELD_LEN,
    }
}

pub open spec fn all_fit(fs: Seq<FieldView>) -> bool {
    forall|i: int| 0 <= i < fs.len() ==> #[trigger] field_fits(fs[i])
}

/// The bytes of one field.
pub open spec fn field_bytes(f: FieldView) -> Seq<u8> {
    match f {
        None => be32(NULL_LEN),
        Some(v) => be32(v.len() as u32) + v,
    }
}

/// The bytes of a list of fields, one after another.
pub open spec fn fields_bytes(fs: Seq<FieldView>) -> Seq<u8>
    decreases fs.len(),
{
    if fs.len() == 0 {
        seq![]
    } else {
        fields_bytes(fs.drop_last()) + field_bytes(fs.last())
    }
}

/// The result of reading an item out of a byte sequence.
pub enum Parsed<T> {
    /// The item, and the offset just past it.
    Got(T, int),
    /// The bytes end before the item does.
    Short,
    /// The bytes cannot hold such an item.
    Bad,
}

/// Reads the field that starts at offset `i`.
pub open spec fn field_at(b: Seq<u8>, i: int) -> Parsed<FieldView> {
    if i + 4 > b.len() {
        Parsed::Short
    } else {
        let n = get_u32(b, i);
        if n == NULL_LEN {
            Parsed::Got(None, i + 4)
        } else if n > MAX_FIELD_LEN {
            Parsed::Bad
        } else if i + 4 + n > b.len() {
            Parsed::Short
        } else {
            Parsed::Got(Some(b.subrange(i + 4, i + 4 + n)), i + 4 + n)
        }
    }
}

/// Reads `k` fields one after another, starting at offset `i`.
pub open spec fn fields_at(b: Seq<u8>, i: int, k: nat) -> Parsed<Seq<FieldView>>
    decreases k,
{
    if k == 0 {
        Parsed::Got(seq![], i)
    } else {
        match fields_at(b, i, (k - 1) as nat) {
            Parsed::Got(fs, j) => match field_at(b, j) {
                Parsed::Got(f, e) => Parsed::Got(fs.push(f), e),
                Parsed::Short => Parsed::Short,
                Parsed::Bad => Parsed::Bad,
            },
            Parsed::Short => Parsed::Short,
            Parsed::Bad => Parsed::Bad,
        }
    }
}

pub proof fn lemma_field_at_bounds(b: Seq<u8>, i: int)
    requires
        0 <= i,
    ensures
        field_at(b, i) matches Parsed::Got(_, e) ==> i + 4 <= e <= b.len(),
{
}

pub proof fn lemma_fields_at_bounds(b: Seq<u8>, i: int, k: nat)
    requires
        0 <= i <= b.len(),
    ensures
        fields_at(b, i, k) matches Parsed::Got(fs, e) ==> i + 4 * k <= e <= b.len() && fs.len()
            == k,
    decreases k,
{
    if k > 0 {
        lemma_fields_at_bounds(b, i, (k - 1) as nat);
        if let Parsed::Got(_, j) = fields_at(b, i, (k - 1) as nat) {
            lemma_field_at_bounds(b, j);
        }
    }
}

/// Reading a field back from its bytes gives the field, whatever follows.
pub proof fn lemma_field_round_trip(pre: Seq<u8>, f: FieldView, rest: Seq<u8>)
    requires
        field_fits(f),
    ensures
        field_at(pre + field_bytes(f) + rest, pre.len() as int) == Parsed::Got(
            f,
            (pre.len() + field_bytes(f).len()) as int,
        ),
{
    let b = pre + field_bytes(f) + rest;
    let p = pre.len() as int;
    let tail = b.subrange(p, b.len() as int);
    match f {
        None => {
            assert(tail =~= be32(NULL_LEN) + rest);
            lemma_u32_round_trip(NULL_LEN, rest);
            assert(get_u32(b, p) == get_u32(tail, 0));
        },
        Some(v) => {
            let n = v.len() as u32;
            assert(tail =~= be32(n) + (v + rest));
            lemma_u32_round_trip(n, v + rest);
            assert(get_u32(b, p) == get_u32(tail, 0));
            assert(b.subrange(p + 4, p + 4 + n) =~= v);
        },
    }
}

/// Reading `fs.len()` fields back from their bytes gives the fields.
pub proof fn lemma_fields_round_trip(pre: Seq<u8>, fs: Seq<FieldView>, rest: Seq<u8>)
    requires
        all_fit(fs),
    ensures
        fields_at(pre + fields_bytes(fs) + rest, pre.len() as int, fs.len()) == Parsed::Got(
            fs,
            (pre.len() + fields_bytes(fs).len()) as int,
        ),
    decreases fs.len(),
{
    if fs.len() > 0 {
        let init = fs.drop_last();
        let f = fs.last();
        assert(field_fits(fs[fs.len() - 1]));
        assert(all_fit(init)) by {
            assert forall|i: int| 0 <= i < init.len() implies #[trigger] field_fits(init[i]) by {
                assert(field_fits(fs[i]));
            }
        }
        let tail = field_bytes(f) + rest;
        assert(pre + fields_bytes(fs) + rest =~= pre + fields_bytes(init) + tail);
        lemma_fields_round_trip(pre, init, tail);
        assert(pre + fields_bytes(fs) + rest =~= (pre + fields_bytes(init)) + field_bytes(f)
            + rest);
        lemma_field_round_trip(pre + fields_bytes(init), f, rest);
        assert(init.push(f) =~= fs);
    } else {
        assert(fs =~= seq![]);
    }
}

/// Appends the bytes of one field.
pub fn put_field(out: &mut Vec<u8>, f: &Option<Vec<u8>>)
    requires
        field_fits(field_view(*f)),
    ensures
        final(out)@ == old(out)@ + field_bytes(field_view(*f)),
{
    match f {
        None => put_u32(out, NULL_LEN),
        Some(v) => {
            put_u32(out, v.len() as u32);
            put_range(out, v.as_slice(), 0, v.len());
            assert(v@.subrange(0, v@.len() as int) =~= v@);
            assert(final(out)@ =~= old(out)@ + field_bytes(field_view(*f)));
        },
    }
}

/// Appends the bytes of a list of fields.
pub fn put_fields(out: &mut Vec<u8>, fs: &Vec<Option<Vec<u8>>>)
    requires
        all_fit(fields_view(fs@)),
    ensures
        final(out)@ == old(out)@ + fields_bytes(fields_view(fs@)),
{
    let mut i: usize = 0;
    while i < fs.len()
        invariant
            i <= fs.len(),
            all_fit(fields_view(fs@)),
            out@ == old(out)@ + fields_bytes(fields_view(fs@).take(i as int)),
        decreases fs.len() - i,
    {
        assert(field_fits(fields_view(fs@)[i as int]));
        put_field(out, &fs[i]);
        let ghost t = fields_view(fs@).take(i + 1);
        assert(t.drop_last() =~= fields_view(fs@).take(i as int));
        i = i + 1;
    }
    assert(fields_view(fs@).take(i as int) =~= fields_view(fs@));
}

/// What reading a field at an offset found, as a value.
pub enum FieldRead {
    Got(Option<Vec<u8>>, usize),
    Short,
    Bad,
}

pub open spec fn field_read_view(r: FieldRead) -> Parsed<FieldView> {
    match r {
        FieldRead::Got(f, e) => Parsed::Got(field_view(f), e as int),
        FieldRead::Short => Parsed::Short,
        FieldRead::Bad => Parsed::Bad,
    }
}

/// Reads the field that starts at offset `i`.
pub fn read_field(b: &[u8], i: usize) -> (r: FieldRead)
    requires
        i <= b@.len(),
    ensures
        field_read_view(r) == field_at(b@, i as int),
{
    if b.len() - i < 4 {
        return FieldRead::Short;
    }
    let n = crate::bytes_be::read_u32(b, i);
    if n == NULL_LEN {
        FieldRead::Got(None, i + 4)
    } else if n as usize > MAX_FIELD_LEN {
        FieldRead::Bad
    } else if b.len() - i - 4 < n as usize {
        FieldRead::Short
    } else {
        let e = i + 4 + n as usize;
        let mut v: Vec<u8> = Vec::new();
        put_range(&mut v, b, i + 4, e);
        assert(v@ =~= b@.subrange(i + 4, e as int));
        FieldRead::Got(Some(v), e)
    }
}

} // verus!
