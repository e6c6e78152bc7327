use pg_wire::copy_binary::{BinaryCopyInWriter, BinaryCopyOutReader, CopyError, CHUNK_SIZE};

type Values = Vec<Option<Vec<u8>>>;

fn write_all(ncols: usize, rows: &[Values]) -> Vec<Vec<u8>> {
    let mut w = BinaryCopyInWriter::new(ncols);
    let mut chunks = Vec::new();
    for r in rows {
        if let Some(c) = w.write(r) {
            assert!(c.len() >= CHUNK_SIZE);
            chunks.push(c);
        }
    }
    chunks.push(w.finish());
    chunks
}

fn read_all(ncols: usize, chunks: &[Vec<u8>]) -> Vec<Values> {
    let mut r = BinaryCopyOutReader::new(ncols);
    let mut out = Vec::new();
    for c in chunks {
        assert!(!r.is_done());
        let (rows, err) = r.feed(c);
        assert!(err.is_none());
        out.extend(rows);
    }
    assert!(r.is_done());
    out
}

fn int4(i: i32) -> Option<Vec<u8>> {
    Some(i.to_be_bytes().to_vec())
}

fn text(s: &str) -> Option<Vec<u8>> {
    Some(s.as_bytes().to_vec())
}

const HEADER: [u8; 19] = [
    b'P', b'G', b'C', b'O', b'P', b'Y', b'\n', 0xFF, b'\r', b'\n', 0, 0, 0, 0, 0, 0, 0, 0, 0,
];

fn tuple(fields: &[Option<Vec<u8>>]) -> Vec<u8> {
    let mut b = (fields.len() as i16).to_be_bytes().to_vec();
    for f in fields {
        match f {
            None => b.extend_from_slice(&(-1i32).to_be_bytes()),
            Some(v) => {
                b.extend_from_slice(&(v.len() as i32).to_be_bytes());
                b.extend_from_slice(v);
            }
        }
    }
    b
}

fn stream(rows: &[Values]) -> Vec<u8> {
    let mut b = HEADER.to_vec();
    for r in rows {
        b.extend(tuple(r));
    }
    b.extend_from_slice(&(-1i16).to_be_bytes());
    b
}

#[test]
fn write_basic() {
    let rows = vec![vec![int4(1), text("foobar")], vec![int4(2), None]];
    let chunks = write_all(2, &rows);
    assert_eq!(chunks.concat(), stream(&rows));
    let back = read_all(2, &chunks);
    assert_eq!(back.len(), 2);
    assert_eq!(back[0][0], int4(1));
    assert_eq!(back[0][1], text("foobar"));
    assert_eq!(back[1][0], int4(2));
    assert_eq!(back[1][1], None);
}

#[test]
fn write_many_rows() {
    let rows: Vec<Values> =
        (0..10_000i32).map(|i| vec![int4(i), text(&format!("the value for {}", i))]).collect();
    let chunks = write_all(2, &rows);
    assert!(chunks.len() > 1);
    let back = read_all(2, &chunks);
    for (i, row) in back.iter().enumerate() {
        assert_eq!(row[0], int4(i as i32));
        assert_eq!(row[1], text(&format!("the value for {}", i)));
    }
    assert_eq!(back.len(), 10_000);
}

#[test]
fn write_big_rows() {
    let rows: Vec<Values> = (0..2i32).map(|i| vec![int4(i), Some(vec![i as u8; 128 * 1024])]).collect();
    let chunks = write_all(2, &rows);
    let back = read_all(2, &chunks);
    for (i, row) in back.iter().enumerate() {
        assert_eq!(row[0], int4(i as i32));
        assert_eq!(row[1].as_deref(), Some(&*vec![i as u8; 128 * 1024]));
    }
    assert_eq!(back.len(), 2);
}

#[test]
fn read_basic() {
    let bytes = stream(&[vec![int4(1), text("foobar")], vec![int4(2), None]]);
    let rows = read_all(2, &[bytes]);
    assert_eq!(rows.len(), 2);
    assert_eq!(rows[0][0], int4(1));
    assert_eq!(rows[0][1], text("foobar"));
    assert_eq!(rows[1][0], int4(2));
    assert_eq!(rows[1][1], None);
}

#[test]
fn read_many_rows() {
    let rows: Vec<Values> =
        (0..10_000i32).map(|i| vec![int4(i), text(&format!("the value for {}", i))]).collect();
    let bytes = stream(&rows);
    let chunks: Vec<Vec<u8>> = bytes.chunks(1000).map(|c| c.to_vec()).collect();
    let back = read_all(2, &chunks);
    assert_eq!(back.len(), 10_000);
    for (i, row) in back.iter().enumerate() {
        assert_eq!(row[0], int4(i as i32));
        assert_eq!(row[1], text(&format!("the value for {}", i)));
    }
}

#[test]
fn read_big_rows() {
    let rows: Vec<Values> = (0..2i32).map(|i| vec![int4(i), Some(vec![i as u8; 128 * 1024])]).collect();
    let bytes = stream(&rows);
    let chunks: Vec<Vec<u8>> = bytes.chunks(4096).map(|c| c.to_vec()).collect();
    let back = read_all(2, &chunks);
    assert_eq!(back.len(), 2);
    for (i, row) in back.iter().enumerate() {
        assert_eq!(row[0], int4(i as i32));
        assert_eq!(row[1].as_deref(), Some(&vec![i as u8; 128 * 1024][..]));
    }
}

#[test]
fn empty_stream_round_trips() {
    let chunks = write_all(3, &[]);
    assert_eq!(chunks.concat(), stream(&[]));
    assert!(read_all(3, &chunks).is_empty());
}

#[test]
fn field_split_after_first_byte() {
    let big = vec![7u8; 128 * 1024];
    let bytes = stream(&[vec![Some(big.clone())]]);
    let split = HEADER.len() + 2 + 4 + 1;
    let mut r = BinaryCopyOutReader::new(1);
    let (rows, err) = r.feed(&bytes[..split]);
    assert!(rows.is_empty() && err.is_none() && !r.is_done());
    let (rows, err) = r.feed(&bytes[split..]);
    assert!(err.is_none() && r.is_done());
    assert_eq!(rows, vec![vec![Some(big)]]);
}

#[test]
fn byte_by_byte_feed() {
    let rows = vec![vec![int4(5), None], vec![text(""), text("x")]];
    let bytes = stream(&rows);
    let chunks: Vec<Vec<u8>> = bytes.iter().map(|b| vec![*b]).collect();
    assert_eq!(read_all(2, &chunks), rows);
}

#[test]
fn empty_value_is_not_null() {
    let rows = vec![vec![text(""), None]];
    let back = read_all(2, &write_all(2, &rows));
    assert_eq!(back[0][0], Some(vec![]));
    assert_eq!(back[0][1], None);
}

#[test]
fn bad_signature_fails() {
    let mut bytes = stream(&[]);
    bytes[0] = b'X';
    let mut r = BinaryCopyOutReader::new(1);
    let (rows, err) = r.feed(&bytes);
    assert!(rows.is_empty());
    assert_eq!(err, Some(CopyError::BadHeader));
    assert!(r.is_done());
}

#[test]
fn nonzero_extension_fails() {
    let mut bytes = stream(&[]);
    bytes[18] = 1;
    let mut r = BinaryCopyOutReader::new(1);
    assert_eq!(r.feed(&bytes).1, Some(CopyError::BadHeader));
}

#[test]
fn wrong_field_count_fails_after_good_rows() {
    let mut bytes = HEADER.to_vec();
    bytes.extend(tuple(&[int4(1)]));
    bytes.extend(tuple(&[int4(1), int4(2)]));
    let mut r = BinaryCopyOutReader::new(1);
    let (rows, err) = r.feed(&bytes);
    assert_eq!(rows, vec![vec![int4(1)]]);
    assert_eq!(err, Some(CopyError::BadTuple));
    assert!(r.is_done());
}

#[test]
fn negative_length_fails() {
    let mut bytes = HEADER.to_vec();
    bytes.extend_from_slice(&1i16.to_be_bytes());
    bytes.extend_from_slice(&(-2i32).to_be_bytes());
    let mut r = BinaryCopyOutReader::new(1);
    assert_eq!(r.feed(&bytes).1, Some(CopyError::BadTuple));
}

#[test]
fn short_header_waits() {
    let bytes = stream(&[]);
    let mut r = BinaryCopyOutReader::new(1);
    let (rows, err) = r.feed(&bytes[..10]);
    assert!(rows.is_empty() && err.is_none() && !r.is_done());
    let (rows, err) = r.feed(&bytes[10..]);
    assert!(rows.is_empty() && err.is_none() && r.is_done());
}

#[test]
fn writer_flushes_at_chunk_size() {
    let mut w = BinaryCopyInWriter::new(1);
    let big = vec![1u8; CHUNK_SIZE];
    let c = w.write(&vec![Some(big.clone())]).unwrap();
    let mut expected = HEADER.to_vec();
    expected.extend(tuple(&[Some(big)]));
    assert_eq!(c, expected);
    assert_eq!(w.finish(), vec![0xFF, 0xFF]);
}
