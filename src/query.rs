//! Running statements over the extended-query protocol: the requests to
//! send, and what to make of each response message as it arrives.
use vstd::prelude::*;
use vstd::string::StringSliceAdditionalSpecFns;
use vstd::utf8::encode_utf8;
use crate::copy_binary::{TupleParse, TupleRead, read_tuple, tuple_at};
use crate::fields::{FieldView, Values, fields_view};
use crate::request::{
    Error, Param, Portal, Statement, bind_outcome, encode_bind, execute_message, execute_ok,
    put_execute, put_sync, sync_message,
};
use crate::tag::{rows_affected, tag_rows};

verus! {

/// A backend message, as the transport delivers it.
pub enum BackendMessage {
    BindComplete,
    /// The body of a Data-Row message: a field count and the fields.
    DataRow(Vec<u8>),
    /// The command tag of a Command-Complete message.
    CommandComplete(String),
    EmptyQueryResponse,
    PortalSuspended,
    /// The fields of an Error-Response message.
    ErrorResponse(Vec<u8>),
    /// Any other message, by its type byte.
    Other(u8),
}

/// A result row: one entry per result column, `None` for SQL NULL.
pub struct Row {
    pub values: Values,
}

/// The fields of a Data-Row body for `ncols` columns, if it holds exactly
/// that many.
pub open spec fn data_row(b: Seq<u8>, ncols: nat) -> Option<Seq<FieldView>> {
    match tuple_at(b, 0, ncols) {
        TupleParse::Row(fs, e) => if e == b.len() {
            Some(fs)
        } else {
            None
        },
        _ => None,
    }
}

/// Decodes a Data-Row body into a row of `ncols` columns.
pub fn decode_row(body: &Vec<u8>, ncols: usize) -> (r: Result<Row, Error>)
    ensures
        match data_row(body@, ncols as nat) {
            Some(fs) => r matches Ok(row) && fields_view(row.values@) == fs,
            None => r matches Err(Error::MalformedRow),
        },
{
    match read_tuple(body.as_slice(), 0, ncols) {
        TupleRead::Row(values, e) => if e == body.len() {
            Ok(Row { values })
        } else {
            Err(Error::MalformedRow)
        },
        _ => Err(Error::MalformedRow),
    }
}

/// Checks the first response to a Bind: it must be Bind-Complete.
pub fn start(msg: BackendMessage) -> (r: Result<(), Error>)
    ensures
        match msg {
            BackendMessage::BindComplete => r is Ok,
            BackendMessage::ErrorResponse(b) => r matches Err(Error::Db(e)) && e@ == b@,
            _ => r matches Err(Error::UnexpectedMessage),
        },
{
    match msg {
        BackendMessage::BindComplete => Ok(()),
        BackendMessage::ErrorResponse(b) => Err(Error::Db(b)),
        _ => Err(Error::UnexpectedMessage),
    }
}

/// A cursor over the rows of one request's responses, fed one message at
/// a time.
pub struct RowStream {
    /// The number of result columns of the statement.
    pub columns: usize,
    /// Whether the stream has ended; no message is fed after that.
    pub done: bool,
}

impl RowStream {
    /// Takes the next response message. Returns the next row, the error
    /// that ends the stream, or `None` at its end.
    pub fn poll_next(&mut self, msg: BackendMessage) -> (r: Option<Result<Row, Error>>)
        requires
            !old(self).done,
        ensures
            final(self).columns == old(self).columns,
            match msg {
                BackendMessage::DataRow(b) => match data_row(b@, old(self).columns as nat) {
                    Some(fs) => r matches Some(Ok(row)) && fields_view(row.values@) == fs
                        && !final(self).done,
                    None => r matches Some(Err(Error::MalformedRow)) && final(self).done,
                },
                BackendMessage::EmptyQueryResponse
                | BackendMessage::CommandComplete(_)
                | BackendMessage::PortalSuspended => r is None && final(self).done,
                BackendMessage::ErrorResponse(b) => r matches Some(Err(Error::Db(e))) && e@ == b@
                    && final(self).done,
                _ => r matches Some(Err(Error::UnexpectedMessage)) && final(self).done,
            },
    {
        match msg {
            BackendMessage::DataRow(b) => {
                let row = decode_row(&b, self.columns);
                if row.is_err() {
                    self.done = true;
                }
                Some(row)
            },
            BackendMessage::EmptyQueryResponse
            | BackendMessage::CommandComplete(_)
            | BackendMessage::PortalSuspended => {
                self.done = true;
                None
            },
            BackendMessage::ErrorResponse(b) => {
                self.done = true;
                Some(Err(Error::Db(b)))
            },
            _ => {
                self.done = true;
                Some(Err(Error::UnexpectedMessage))
            },
        }
    }
}

/// What `execute` makes of a response after Bind-Complete: `None` to go on
/// (a Data-Row, whose content is not needed), else the outcome.
pub fn execute_step(msg: &BackendMessage) -> (r: Option<Result<u64, Error>>)
    ensures
        match msg {
            BackendMessage::DataRow(_) => r is None,
            BackendMessage::CommandComplete(t) => r matches Some(Ok(n)) && n == tag_rows(
                encode_utf8(t@),
            ),
            BackendMessage::EmptyQueryResponse => r matches Some(Ok(n)) && n == 0,
            BackendMessage::ErrorResponse(b) => r matches Some(Err(Error::Db(e))) && e@ == b@,
            _ => r matches Some(Err(Error::UnexpectedMessage)),
        },
{
    match msg {
        BackendMessage::DataRow(_) => None,
        BackendMessage::CommandComplete(t) => Some(Ok(rows_affected(t.as_str()))),
        BackendMessage::EmptyQueryResponse => Some(Ok(0)),
        BackendMessage::ErrorResponse(b) => Some(Err(Error::Db(b.clone()))),
        _ => Some(Err(Error::UnexpectedMessage)),
    }
}

/// The request that runs `statement` with `params` through the unnamed
/// portal: Bind, Execute for all rows, Sync.
pub fn encode(statement: &Statement, params: &Vec<Param>) -> (r: Result<Vec<u8>, Error>)
    requires
        params@.len() == statement.params@.len(),
    ensures
        match bind_outcome(Seq::empty(), encode_utf8(statement.name@), params@) {
            Ok(m) => r matches Ok(v) && v@ == m + execute_message(Seq::empty(), 0) + sync_message(),
            Err(e) => r == Err::<Vec<u8>, Error>(e),
        },
{
    let mut buf: Vec<u8> = Vec::new();
    proof { reveal_strlit(""); }
    assert(""@ =~= Seq::<char>::empty());
    assert(encode_utf8(Seq::<char>::empty()) =~= Seq::<u8>::empty());
    match encode_bind(statement, params, "", &mut buf) {
        Ok(()) => {},
        Err(e) => return Err(e),
    }
    let ok = put_execute(&mut buf, "", 0);
    assert(ok);
    put_sync(&mut buf);
    Ok(buf)
}

/// Starts a query: the request to send, and the stream that reads its
/// responses once `start` has accepted the first one.
pub fn query(statement: &Statement, params: &Vec<Param>) -> (r: Result<(Vec<u8>, RowStream), Error>)
    requires
        params@.len() == statement.params@.len(),
    ensures
        match bind_outcome(Seq::empty(), encode_utf8(statement.name@), params@) {
            Ok(m) => r matches Ok((v, s)) && v@ == m + execute_message(Seq::empty(), 0)
                + sync_message() && s.columns == statement.columns@.len() && !s.done,
            Err(e) => r == Err::<(Vec<u8>, RowStream), Error>(e),
        },
{
    let req = encode(statement, params)?;
    Ok((req, RowStream { columns: statement.columns.len(), done: false }))
}

/// Fetches at most `max_rows` more rows (0: all) from a portal that is
/// already bound: the request to send (Execute, Sync), and the stream that
/// reads its responses from the first one on.
pub fn query_portal(portal: &Portal, max_rows: i32) -> (r: Result<(Vec<u8>, RowStream), Error>)
    ensures
        execute_ok(encode_utf8(portal.name@)) ==> (r matches Ok((v, s)) && v@ == execute_message(
            encode_utf8(portal.name@),
            max_rows,
        ) + sync_message() && s.columns == portal.statement.columns@.len() && !s.done),
        !execute_ok(encode_utf8(portal.name@)) ==> r matches Err(Error::Encode),
{
    let mut buf: Vec<u8> = Vec::new();
    if !put_execute(&mut buf, portal.name.as_str(), max_rows) {
        return Err(Error::Encode);
    }
    put_sync(&mut buf);
    Ok((buf, RowStream { columns: portal.statement.columns.len(), done: false }))
}

/// Starts a statement whose result is an affected-row count: the request
/// to send. Its responses go to `start`, then to `execute_step` until that
/// gives an outcome.
pub fn execute(statement: &Statement, params: &Vec<Param>) -> (r: Result<Vec<u8>, Error>)
    requires
        params@.len() == statement.params@.len(),
    ensures
        match bind_outcome(Seq::empty(), encode_utf8(statement.name@), params@) {
            Ok(m) => r matches Ok(v) && v@ == m + execute_message(Seq::empty(), 0) + sync_message(),
            Err(e) => r == Err::<Vec<u8>, Error>(e),
        },
{
    encode(statement, params)
}

} // verus!
