//! Frontend requests of the extended-query protocol: Bind, Execute, Sync.
use vstd::prelude::*;
use crate::bytes_be::{be16, be32, get_u16, lemma_u16_round_trip, put_u16, put_u32, put_range};
use crate::fields::{
    FieldView, MAX_FIELD_LEN, NULL_LEN, Parsed, all_fit, field_bytes, field_fits, fields_at,
    fields_bytes, lemma_fields_round_trip,
};
use postgres_protocol::message::frontend;
use vstd::string::StringSliceAdditionalSpecFns;
use vstd::utf8::encode_utf8;

verus! {

/// A parameter value, as the typed converter for its declared type left it.
pub enum Param {
    /// SQL NULL.
    Null,
    /// The value's bytes in binary format.
    Value(Vec<u8>),
    /// The value cannot be represented as the declared type.
    Unconvertible,
}

/// A result column of a prepared statement.
pub struct Column {
    pub name: String,
    /// The column's type, by OID.
    pub type_oid: u32,
}

/// A prepared statement, as the server described it.
pub struct Statement {
    pub name: String,
    /// The declared parameter types, by OID, in order.
    pub params: Vec<u32>,
    pub columns: Vec<Column>,
}

/// A server-side cursor bound to a statement.
pub struct Portal {
    pub name: String,
    pub statement: Statement,
}

/// Why a request or its response failed.
#[derive(Debug)]
pub enum Error {
    /// The parameter at this index could not be converted to its type.
    ToSql { index: usize },
    /// The message cannot be framed: a name holds a NUL byte, or a count
    /// or length does not fit its field.
    Encode,
    /// The server sent a message that has no place here.
    UnexpectedMessage,
    /// The server reported an error; its fields, as sent.
    Db(Vec<u8>),
    /// A Data-Row message does not hold one field per result column.
    MalformedRow,
}

/// Format code for binary, used for every parameter and result column.
pub const BINARY: u16 = 1;

/// The largest length field of a message (`i32::MAX`).
pub const MAX_MESSAGE_LEN: usize = 0x7FFF_FFFF;

/// Whether `s` holds a NUL byte.
pub open spec fn has_nul(s: Seq<u8>) -> bool {
    exists|i: int| 0 <= i < s.len() && s[i] == 0
}

/// `s` followed by a NUL terminator.
pub open spec fn cstr(s: Seq<u8>) -> Seq<u8> {
    s.push(0)
}

/// What a parameter puts in its length-prefixed slot.
pub open spec fn param_field(p: Param) -> FieldView {
    match p {
        Param::Value(v) => Some(v@),
        _ => None,
    }
}

pub open spec fn params_fields(ps: Seq<Param>) -> Seq<FieldView> {
    ps.map_values(|p: Param| param_field(p))
}

/// Whether a parameter can be sent: converted, and not longer than a
/// length field allows.
pub open spec fn param_ok(p: Param) -> bool {
    match p {
        Param::Null => true,
        Param::Value(v) => v.len() <= MAX_FIELD_LEN,
        Param::Unconvertible => false,
    }
}

/// The first index from `i` on whose parameter cannot be sent.
pub open spec fn first_bad(ps: Seq<Param>, i: int) -> Option<int>
    decreases ps.len() - i,
{
    if i < 0 || i >= ps.len() {
        None
    } else if !param_ok(ps[i]) {
        Some(i)
    } else {
        first_bad(ps, i + 1)
    }
}

/// The body of a Bind message: portal and statement names, the parameter
/// formats (all binary), the parameter values, the result formats (all
/// binary).
pub open spec fn bind_body(portal: Seq<u8>, stmt: Seq<u8>, ps: Seq<Param>) -> Seq<u8> {
    cstr(portal) + cstr(stmt) + be16(1) + be16(BINARY) + be16(ps.len() as u16) + fields_bytes(
        params_fields(ps),
    ) + be16(1) + be16(BINARY)
}

/// A message: its type byte, its length (counting itself), its body.
pub open spec fn message(tag: u8, body: Seq<u8>) -> Seq<u8> {
    seq![tag] + be32((body.len() + 4) as u32) + body
}

/// What encoding a Bind of `ps` gives: the message, or the first error in
/// the order the fields are written.
pub open spec fn bind_outcome(portal: Seq<u8>, stmt: Seq<u8>, ps: Seq<Param>) -> Result<
    Seq<u8>,
    Error,
> {
    if has_nul(portal) || has_nul(stmt) {
        Err(Error::Encode)
    } else if let Some(i) = first_bad(ps, 0) {
        if ps[i] is Unconvertible {
            Err(Error::ToSql { index: i as usize })
        } else {
            Err(Error::Encode)
        }
    } else if ps.len() > 0xFFFF {
        Err(Error::Encode)
    } else if bind_body(portal, stmt, ps).len() + 4 > MAX_MESSAGE_LEN {
        Err(Error::Encode)
    } else {
        Ok(message(0x42, bind_body(portal, stmt, ps)))
    }
}

/// An Execute message for `portal`, fetching at most `max_rows` rows
/// (0: all of them).
pub open spec fn execute_message(portal: Seq<u8>, max_rows: i32) -> Seq<u8> {
    message(0x45, cstr(portal) + be32(max_rows as u32))
}

/// A Sync message.
pub open spec fn sync_message() -> Seq<u8> {
    message(0x53, Seq::empty())
}

/// Whether an Execute message for `portal` can be framed.
pub open spec fn execute_ok(portal: Seq<u8>) -> bool {
    !has_nul(portal) && portal.len() + 9 <= MAX_MESSAGE_LEN
}

/// Relies on postgres_protocol's `frontend::execute`: it writes the type
/// byte `E`, the length, the NUL-terminated portal name and `max_rows`, and
/// fails, writing nothing that is kept here, when the name holds a NUL byte
/// or the length does not fit an `i32`.
#[verifier::external_body]
pub(crate) fn put_execute(out: &mut Vec<u8>, portal: &str, max_rows: i32) -> (r: bool)
    ensures
        r == execute_ok(portal.spec_bytes()),
        r ==> final(out)@ == old(out)@ + execute_message(portal.spec_bytes(), max_rows),
        !r ==> final(out)@ == old(out)@,
{
    let mut b = bytes::BytesMut::new();
    match frontend::execute(portal, max_rows, &mut b) {
        Ok(()) => {
            out.extend_from_slice(&b);
            true
        },
        Err(_) => false,
    }
}

/// Relies on postgres_protocol's `frontend::sync`: it writes the type byte
/// `S` and the length 4.
#[verifier::external_body]
pub(crate) fn put_sync(out: &mut Vec<u8>)
    ensures
        final(out)@ == old(out)@ + sync_message(),
{
    let mut b = bytes::BytesMut::new();
    frontend::sync(&mut b);
    out.extend_from_slice(&b);
}

/// Whether `s` holds a NUL byte.
pub fn contains_nul(s: &[u8]) -> (r: bool)
    ensures
        r == has_nul(s@),
{
    let mut i: usize = 0;
    while i < s.len()
        invariant
            i <= s@.len(),
            forall|j: int| 0 <= j < i ==> s@[j] != 0,
        decreases s@.len() - i,
    {
        if s[i] == 0 {
            return true;
        }
        i = i + 1;
    }
    false
}

/// Appends `s` and a NUL terminator.
fn put_cstr(out: &mut Vec<u8>, s: &[u8])
    ensures
        final(out)@ == old(out)@ + cstr(s@),
{
    put_range(out, s, 0, s.len());
    out.push(0u8);
    assert(final(out)@ =~= old(out)@ + cstr(s@));
}

/// Appends the length-prefixed slot of one parameter.
fn put_param(out: &mut Vec<u8>, p: &Param)
    requires
        param_ok(*p),
    ensures
        final(out)@ == old(out)@ + field_bytes(param_field(*p)),
{
    match p {
        Param::Value(v) => {
            put_u32(out, v.len() as u32);
            put_range(out, v.as_slice(), 0, v.len());
            assert(final(out)@ =~= old(out)@ + field_bytes(param_field(*p)));
        },
        _ => put_u32(out, NULL_LEN),
    }
}

/// Finds the first parameter that cannot be sent.
fn find_bad(ps: &Vec<Param>) -> (r: Option<usize>)
    ensures
        match r {
            Some(i) => first_bad(ps@, 0) == Some(i as int),
            None => first_bad(ps@, 0) is None,
        },
{
    let mut i: usize = 0;
    while i < ps.len()
        invariant
            i <= ps@.len(),
            first_bad(ps@, 0) == first_bad(ps@, i as int),
        decreases ps@.len() - i,
    {
        let ok = match &ps[i] {
            Param::Null => true,
            Param::Value(v) => v.len() <= MAX_FIELD_LEN,
            Param::Unconvertible => false,
        };
        if !ok {
            return Some(i);
        }
        i = i + 1;
    }
    None
}

/// Appends a Bind message for `statement`, binding `params` to `portal`,
/// with binary format for every parameter and result column. On error
/// `buf` is left as it was.
pub fn encode_bind(
    statement: &Statement,
    params: &Vec<Param>,
    portal: &str,
    buf: &mut Vec<u8>,
) -> (r: Result<(), Error>)
    requires
        params@.len() == statement.params@.len(),
    ensures
        match bind_outcome(portal.spec_bytes(), encode_utf8(statement.name@), params@) {
            Ok(m) => r is Ok && final(buf)@ == old(buf)@ + m,
            Err(e) => r == Err::<(), Error>(e) && final(buf)@ == old(buf)@,
        },
{
    let pb = portal.as_bytes();
    let sb = statement.name.as_str().as_bytes();
    if contains_nul(pb) || contains_nul(sb) {
        return Err(Error::Encode);
    }
    proof { lemma_first_bad_bounds(params@, 0); }
    match find_bad(params) {
        Some(i) => {
            return match &params[i] {
                Param::Unconvertible => Err(Error::ToSql { index: i }),
                _ => Err(Error::Encode),
            };
        },
        None => {},
    }
    if params.len() > 0xFFFF {
        return Err(Error::Encode);
    }
    let mut body: Vec<u8> = Vec::new();
    put_cstr(&mut body, pb);
    put_cstr(&mut body, sb);
    put_u16(&mut body, 1);
    put_u16(&mut body, BINARY);
    put_u16(&mut body, params.len() as u16);
    let ghost head = body@;
    let mut i: usize = 0;
    while i < params.len()
        invariant
            i <= params@.len(),
            first_bad(params@, 0) is None,
            body@ == head + fields_bytes(params_fields(params@).take(i as int)),
        decreases params@.len() - i,
    {
        proof { lemma_no_bad_ok(params@, 0, i as int); }
        put_param(&mut body, &params[i]);
        assert(params_fields(params@).take(i + 1).drop_last() =~= params_fields(params@).take(
            i as int,
        ));
        i = i + 1;
    }
    assert(params_fields(params@).take(i as int) =~= params_fields(params@));
    put_u16(&mut body, 1);
    put_u16(&mut body, BINARY);
    assert(body@ =~= bind_body(pb@, sb@, params@));
    if body.len() > MAX_MESSAGE_LEN - 4 {
        return Err(Error::Encode);
    }
    buf.push(0x42u8);
    put_u32(buf, (body.len() + 4) as u32);
    put_range(buf, body.as_slice(), 0, body.len());
    assert(body@.subrange(0, body@.len() as int) =~= body@);
    assert(final(buf)@ =~= old(buf)@ + message(0x42, bind_body(pb@, sb@, params@)));
    Ok(())
}

proof fn lemma_first_bad_bounds(ps: Seq<Param>, k: int)
    requires
        0 <= k,
    ensures
        first_bad(ps, k) matches Some(i) ==> k <= i < ps.len() && !param_ok(ps[i]),
    decreases ps.len() - k,
{
    if k < ps.len() && param_ok(ps[k]) {
        lemma_first_bad_bounds(ps, k + 1);
    }
}

proof fn lemma_no_bad_ok(ps: Seq<Param>, i: int, j: int)
    requires
        0 <= i <= j < ps.len(),
        first_bad(ps, i) is None,
    ensures
        param_ok(ps[j]),
    decreases j - i,
{
    if i < j {
        lemma_no_bad_ok(ps, i + 1, j);
    }
}


/// Offset of the parameter values in a Bind message.
pub open spec fn bind_values_offset(portal: Seq<u8>, stmt: Seq<u8>) -> int {
    (5 + cstr(portal).len() + cstr(stmt).len() + 6) as int
}

/// Every parameter that a Bind message carries reads back from it as it
/// was given: the value count is the number of parameters, and reading
/// that many length-prefixed values yields each value's bytes, and `None`
/// exactly where the parameter is SQL NULL.
pub proof fn lemma_bind_round_trip(portal: Seq<u8>, stmt: Seq<u8>, ps: Seq<Param>)
    requires
        bind_outcome(portal, stmt, ps) is Ok,
    ensures
        ({
            let m = bind_outcome(portal, stmt, ps)->Ok_0;
            let off = bind_values_offset(portal, stmt);
            &&& get_u16(m, off - 2) == ps.len()
            &&& fields_at(m, off, ps.len()) == Parsed::Got(
                params_fields(ps),
                off + fields_bytes(params_fields(ps)).len(),
            )
        }),
{
    let fs = params_fields(ps);
    assert(all_fit(fs)) by {
        assert forall|j: int| 0 <= j < fs.len() implies #[trigger] field_fits(fs[j]) by {
            lemma_no_bad_ok(ps, 0, j);
        }
    }
    let body = bind_body(portal, stmt, ps);
    let m = message(0x42, body);
    let head = seq![0x42u8] + be32((body.len() + 4) as u32) + cstr(portal) + cstr(stmt) + be16(1)
        + be16(BINARY);
    let pre = head + be16(ps.len() as u16);
    let rest = be16(1) + be16(BINARY);
    assert(m =~= pre + fields_bytes(fs) + rest);
    lemma_fields_round_trip(pre, fs, rest);
    let off = bind_values_offset(portal, stmt);
    assert(head.len() == off - 2);
    assert(m.subrange(off - 2, m.len() as int) =~= be16(ps.len() as u16) + (fields_bytes(fs)
        + rest));
    lemma_u16_round_trip(ps.len() as u16, fields_bytes(fs) + rest);
    assert(get_u16(m, off - 2) == get_u16(m.subrange(off - 2, m.len() as int), 0));
}

} // verus!
