use pg_wire::query::{
    decode_row, execute, execute_step, query, query_portal, start, BackendMessage, RowStream,
};
use pg_wire::request::{encode_bind, Column, Error, Param, Portal, Statement};
use pg_wire::tag::rows_affected;

fn statement(name: &str, params: usize, columns: usize) -> Statement {
    Statement {
        name: name.to_string(),
        params: vec![23; params],
        columns: (0..columns).map(|i| Column { name: format!("c{}", i), type_oid: 23 }).collect(),
    }
}

fn data_row(fields: &[Option<&[u8]>]) -> Vec<u8> {
    let mut b = (fields.len() as i16).to_be_bytes().to_vec();
    for f in fields {
        match f {
            None => b.extend_from_slice(&(-1i32).to_be_bytes()),
            Some(v) => {
                b.extend_from_slice(&(v.len() as i32).to_be_bytes());
                b.extend_from_slice(v);
            }
        }
    }
    b
}

const EXECUTE_ALL: [u8; 10] = [b'E', 0, 0, 0, 9, 0, 0, 0, 0, 0];
const SYNC: [u8; 5] = [b'S', 0, 0, 0, 4];

#[test]
fn insert_tag_gives_count() {
    assert_eq!(rows_affected("INSERT 0 5"), 5);
}

#[test]
fn tag_without_count_gives_zero() {
    assert_eq!(rows_affected("CREATE TABLE"), 0);
    assert_eq!(rows_affected(""), 0);
    assert_eq!(rows_affected("UPDATE "), 0);
}

#[test]
fn tag_count_edge_cases() {
    assert_eq!(rows_affected("SELECT 42"), 42);
    assert_eq!(rows_affected("DELETE +3"), 3);
    assert_eq!(rows_affected("MOVE -1"), 0);
    assert_eq!(rows_affected("COPY 18446744073709551615"), u64::MAX);
    assert_eq!(rows_affected("COPY 18446744073709551616"), 0);
    assert_eq!(rows_affected("7"), 7);
}

#[test]
fn bind_bytes_are_exact() {
    let st = statement("s1", 2, 0);
    let params = vec![Param::Value(vec![0, 0, 0, 7]), Param::Null];
    let mut buf = vec![9u8];
    encode_bind(&st, &params, "p", &mut buf).unwrap();
    let mut body = vec![b'p', 0, b's', b'1', 0, 0, 1, 0, 1, 0, 2];
    body.extend_from_slice(&[0, 0, 0, 4, 0, 0, 0, 7]);
    body.extend_from_slice(&[0xFF, 0xFF, 0xFF, 0xFF]);
    body.extend_from_slice(&[0, 1, 0, 1]);
    let mut expected = vec![9u8, b'B'];
    expected.extend_from_slice(&((body.len() + 4) as i32).to_be_bytes());
    expected.extend(body);
    assert_eq!(buf, expected);
}

#[test]
fn bind_reports_first_unconvertible_index() {
    let st = statement("", 3, 0);
    let params = vec![Param::Null, Param::Unconvertible, Param::Unconvertible];
    let mut buf = vec![1u8, 2];
    let r = encode_bind(&st, &params, "", &mut buf);
    assert!(matches!(r, Err(Error::ToSql { index: 1 })));
    assert_eq!(buf, vec![1u8, 2]);
}

#[test]
fn bind_rejects_nul_in_name() {
    let st = statement("a\0b", 1, 0);
    let mut buf = Vec::new();
    let r = encode_bind(&st, &vec![Param::Unconvertible], "", &mut buf);
    assert!(matches!(r, Err(Error::Encode)));
    assert!(buf.is_empty());
}

#[test]
fn query_request_is_bind_execute_sync() {
    let st = statement("", 0, 1);
    let (req, s) = query(&st, &vec![]).ok().unwrap();
    let mut expected = vec![b'B', 0, 0, 0, 16, 0, 0, 0, 1, 0, 1, 0, 0, 0, 1, 0, 1];
    expected.extend_from_slice(&EXECUTE_ALL);
    expected.extend_from_slice(&SYNC);
    assert_eq!(req, expected);
    assert_eq!(s.columns, 1);
    assert!(!s.done);
    assert_eq!(execute(&st, &vec![]).unwrap(), expected);
}

#[test]
fn portal_request_is_execute_sync() {
    let portal = Portal { name: "cur".to_string(), statement: statement("s", 0, 2) };
    let (req, s) = query_portal(&portal, 100).ok().unwrap();
    let mut expected = vec![b'E', 0, 0, 0, 12, b'c', b'u', b'r', 0, 0, 0, 0, 100];
    expected.extend_from_slice(&SYNC);
    assert_eq!(req, expected);
    assert_eq!(s.columns, 2);
    let bad = Portal { name: "c\0".to_string(), statement: statement("s", 0, 2) };
    assert!(matches!(query_portal(&bad, 1), Err(Error::Encode)));
}

#[test]
fn start_wants_bind_complete() {
    assert!(start(BackendMessage::BindComplete).is_ok());
    assert!(matches!(start(BackendMessage::EmptyQueryResponse), Err(Error::UnexpectedMessage)));
    assert!(matches!(start(BackendMessage::ErrorResponse(vec![1])), Err(Error::Db(b)) if b == vec![1]));
}

#[test]
fn zero_row_stream_ends_at_once() {
    let mut s = RowStream { columns: 2, done: false };
    assert!(s.poll_next(BackendMessage::CommandComplete("SELECT 0".to_string())).is_none());
    assert!(s.done);
}

#[test]
fn stream_yields_rows_then_ends() {
    let mut s = RowStream { columns: 2, done: false };
    let body = data_row(&[Some(&[0, 0, 0, 1]), None]);
    let row = s.poll_next(BackendMessage::DataRow(body)).unwrap().ok().unwrap();
    assert_eq!(row.values, vec![Some(vec![0, 0, 0, 1]), None]);
    assert!(!s.done);
    assert!(s.poll_next(BackendMessage::PortalSuspended).is_none());
    assert!(s.done);
}

#[test]
fn stream_errors_end_it() {
    let mut s = RowStream { columns: 2, done: false };
    let bad = data_row(&[Some(&[1])]);
    assert!(matches!(s.poll_next(BackendMessage::DataRow(bad)), Some(Err(Error::MalformedRow))));
    assert!(s.done);
    let mut s = RowStream { columns: 1, done: false };
    assert!(matches!(s.poll_next(BackendMessage::Other(b'Z')), Some(Err(Error::UnexpectedMessage))));
    assert!(s.done);
    let mut s = RowStream { columns: 1, done: false };
    assert!(matches!(s.poll_next(BackendMessage::ErrorResponse(vec![b'S'])), Some(Err(Error::Db(_)))));
    assert!(s.done);
}

#[test]
fn decode_row_rejects_trailing_bytes() {
    let mut body = data_row(&[None]);
    assert!(decode_row(&body, 1).is_ok());
    body.push(0);
    assert!(matches!(decode_row(&body, 1), Err(Error::MalformedRow)));
}

#[test]
fn execute_drains_rows_then_counts() {
    assert!(execute_step(&BackendMessage::DataRow(data_row(&[None]))).is_none());
    let done = execute_step(&BackendMessage::CommandComplete("INSERT 0 5".to_string()));
    assert!(matches!(done, Some(Ok(5))));
    assert!(matches!(execute_step(&BackendMessage::EmptyQueryResponse), Some(Ok(0))));
    assert!(matches!(execute_step(&BackendMessage::PortalSuspended), Some(Err(Error::UnexpectedMessage))));
}
