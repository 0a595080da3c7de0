use twobit::{
    slice_to_field, Block, ByteCursor, Error, IoKind, Reader, SeekFrom, ValueReader,
    PAYLOAD_START, REV_SIGNATURE, SIGNATURE,
};

fn forward_header() -> Vec<u8> {
    vec![0x1A, 0x41, 0x27, 0x43, 0, 0, 0, 0]
}

fn reversed_header() -> Vec<u8> {
    vec![0x43, 0x27, 0x41, 0x1A, 0, 0, 0, 0]
}

fn with_forward_header(payload: &[u8]) -> Vec<u8> {
    let mut bytes = forward_header();
    bytes.extend_from_slice(payload);
    bytes
}

/// A source that hands out at most one byte per read.
struct Trickle {
    inner: ByteCursor,
}

impl Reader for Trickle {
    fn read(&mut self, buf: &mut Vec<u8>, max: usize) -> Result<usize, IoKind> {
        self.inner.read(buf, max.min(1))
    }

    fn seek(&mut self, to: SeekFrom) -> Result<u64, IoKind> {
        self.inner.seek(to)
    }
}

/// A source that never delivers a byte and never reports an error.
struct Stalled;

impl Reader for Stalled {
    fn read(&mut self, _buf: &mut Vec<u8>, _max: usize) -> Result<usize, IoKind> {
        Ok(0)
    }

    fn seek(&mut self, _to: SeekFrom) -> Result<u64, IoKind> {
        Ok(0)
    }
}

/// A source whose reads fail.
struct Broken;

impl Reader for Broken {
    fn read(&mut self, _buf: &mut Vec<u8>, _max: usize) -> Result<usize, IoKind> {
        Err(IoKind::PermissionDenied)
    }

    fn seek(&mut self, _to: SeekFrom) -> Result<u64, IoKind> {
        Err(IoKind::Other)
    }
}

#[test]
fn test_slice_to_field() {
    let slice: [u8; 4] = [0x1A, 0x41, 0x27, 0x43];
    assert_eq!(slice_to_field(slice, false), 0x1A412743);
    let slice: [u8; 4] = [0x43, 0x27, 0x41, 0x1A];
    assert_eq!(slice_to_field(slice, false), 0x4327411A);

    assert_eq!(
        slice_to_field([0x1A, 0x41, 0x27, 0x43], true),
        slice_to_field([0x43, 0x27, 0x41, 0x1A,], false)
    );

    let slice: [u8; 4] = [0, 2, 3, 4];
    assert_eq!(slice_to_field(slice, false), 2 * 65536 + 3 * 256 + 4);
}

#[test]
fn swapped_bytes_decode_to_the_signature() {
    assert_eq!(slice_to_field([0x43, 0x27, 0x41, 0x1A], true), SIGNATURE);
    assert_eq!(slice_to_field([0x1A, 0x41, 0x27, 0x43], true), REV_SIGNATURE);
}

#[test]
fn swap_equals_reversed_decode() {
    let samples: [[u8; 4]; 4] = [
        [0, 0, 0, 0],
        [0xFF, 0xFF, 0xFF, 0xFF],
        [1, 2, 3, 4],
        [0x80, 0x00, 0x7F, 0x01],
    ];
    for s in samples {
        let mut r = s;
        r.reverse();
        assert_eq!(slice_to_field(s, true), slice_to_field(r, false));
    }
    assert_eq!(slice_to_field([1, 2, 3, 4], true), 0x04030201);
}

#[test]
fn open_forward_signature() {
    let mut reader = ValueReader::from_buf(forward_header()).unwrap();
    assert_eq!(reader.tell().unwrap(), 8);
}

#[test]
fn open_reversed_signature_swaps_fields() {
    let mut bytes = reversed_header();
    bytes.extend_from_slice(&[0x05, 0x00, 0x00, 0x00, 0x00, 0x01, 0x00, 0x00]);
    let mut reader = ValueReader::from_buf(bytes).unwrap();
    assert_eq!(reader.field().unwrap(), 5);
    assert_eq!(reader.field().unwrap(), 256);
}

#[test]
fn bad_signature_is_file_format() {
    let r = ValueReader::from_buf(vec![0x1A, 0x41, 0x27, 0x44]);
    assert!(matches!(r, Err(Error::FileFormat(_))));
    let r = ValueReader::from_buf(vec![0, 0, 0, 0, 0, 0, 0, 0, 9, 9]);
    assert!(matches!(r, Err(Error::FileFormat(_))));
}

#[test]
fn version_one_is_unsupported() {
    let r = ValueReader::from_buf(vec![0x1A, 0x41, 0x27, 0x43, 0, 0, 0, 1]);
    assert!(matches!(r, Err(Error::UnsupportedVersion(_))));
    let r = ValueReader::from_buf(vec![0x43, 0x27, 0x41, 0x1A, 1, 0, 0, 0]);
    assert!(matches!(r, Err(Error::UnsupportedVersion(_))));
}

#[test]
fn short_header_is_unexpected_eof() {
    let r = ValueReader::from_buf(vec![0x1A, 0x41]);
    assert!(matches!(r, Err(Error::Io(IoKind::UnexpectedEof))));
    let r = ValueReader::from_buf(vec![0x1A, 0x41, 0x27, 0x43, 0, 0]);
    assert!(matches!(r, Err(Error::Io(IoKind::UnexpectedEof))));
    let r = ValueReader::from_buf(vec![]);
    assert!(matches!(r, Err(Error::Io(IoKind::UnexpectedEof))));
}

#[test]
fn new_over_a_trickling_source() {
    let mut bytes = forward_header();
    bytes.extend_from_slice(&[0, 0, 1, 2, 0xAB]);
    let source = Trickle { inner: ByteCursor::new(bytes) };
    let mut reader = ValueReader::new(source).unwrap();
    assert_eq!(reader.field().unwrap(), 258);
    assert_eq!(reader.byte().unwrap(), 0xAB);
    assert!(matches!(reader.byte(), Err(Error::Io(IoKind::UnexpectedEof))));
}

#[test]
fn stalled_source_ends_with_unexpected_eof() {
    let r = ValueReader::new(Stalled);
    assert!(matches!(r, Err(Error::Io(IoKind::UnexpectedEof))));
}

#[test]
fn source_error_kind_is_kept() {
    let r = ValueReader::new(Broken);
    assert!(matches!(r, Err(Error::Io(IoKind::PermissionDenied))));
}

#[test]
fn byte_reads_one_byte() {
    let mut reader = ValueReader::from_buf(with_forward_header(&[7, 200])).unwrap();
    assert_eq!(reader.byte().unwrap(), 7);
    assert_eq!(reader.byte().unwrap(), 200);
    assert_eq!(reader.tell().unwrap(), 10);
    assert!(matches!(reader.byte(), Err(Error::Io(IoKind::UnexpectedEof))));
}

#[test]
fn field_past_the_end_fails() {
    let mut reader = ValueReader::from_buf(with_forward_header(&[1, 2, 3])).unwrap();
    assert!(matches!(reader.field(), Err(Error::Io(IoKind::UnexpectedEof))));
}

#[test]
fn string_hello() {
    let mut reader = ValueReader::from_buf(with_forward_header(b"hello")).unwrap();
    assert_eq!(reader.string(5).unwrap(), "hello");
    assert_eq!(reader.tell().unwrap(), 13);
}

#[test]
fn string_multibyte_text() {
    let text = "né€";
    let mut reader = ValueReader::from_buf(with_forward_header(text.as_bytes())).unwrap();
    assert_eq!(reader.string(text.len()).unwrap(), text);
}

#[test]
fn string_invalid_utf8_is_text_decode() {
    let mut reader =
        ValueReader::from_buf(with_forward_header(&[0x68, 0xFF, 0xFE, 0x6C, 0x6F])).unwrap();
    assert!(matches!(reader.string(5), Err(Error::TextDecode)));
}

#[test]
fn string_of_length_zero_is_empty() {
    let mut reader = ValueReader::from_buf(forward_header()).unwrap();
    assert_eq!(reader.string(0).unwrap(), "");
    assert_eq!(reader.tell().unwrap(), 8);
}

#[test]
fn string_past_the_end_fails() {
    let mut reader = ValueReader::from_buf(with_forward_header(b"hi")).unwrap();
    assert!(matches!(reader.string(3), Err(Error::Io(IoKind::UnexpectedEof))));
}

#[test]
fn blocks_empty_consumes_the_count() {
    let mut reader = ValueReader::from_buf(with_forward_header(&[0, 0, 0, 0, 9])).unwrap();
    assert_eq!(reader.blocks().unwrap(), vec![]);
    assert_eq!(reader.tell().unwrap(), 12);
}

#[test]
fn blocks_two_arrays() {
    let payload = [0, 0, 0, 2, 0, 0, 0, 10, 0, 0, 0, 50, 0, 0, 0, 5, 0, 0, 0, 8];
    let mut reader = ValueReader::from_buf(with_forward_header(&payload)).unwrap();
    assert_eq!(
        reader.blocks().unwrap(),
        vec![Block { start: 10, length: 5 }, Block { start: 50, length: 8 }]
    );
    assert_eq!(reader.tell().unwrap(), 28);
}

#[test]
fn blocks_two_arrays_swapped() {
    let mut bytes = reversed_header();
    bytes.extend_from_slice(&[2, 0, 0, 0, 10, 0, 0, 0, 50, 0, 0, 0, 5, 0, 0, 0, 8, 0, 0, 0]);
    let mut reader = ValueReader::from_buf(bytes).unwrap();
    assert_eq!(
        reader.blocks().unwrap(),
        vec![Block { start: 10, length: 5 }, Block { start: 50, length: 8 }]
    );
}

#[test]
fn blocks_truncated_fails() {
    let payload = [0, 0, 0, 2, 0, 0, 0, 10, 0, 0, 0, 50, 0, 0, 0, 5];
    let mut reader = ValueReader::from_buf(with_forward_header(&payload)).unwrap();
    assert!(matches!(reader.blocks(), Err(Error::Io(IoKind::UnexpectedEof))));
}

#[test]
fn skip_blocks_advances_past_both_arrays() {
    let mut reader = ValueReader::from_buf(with_forward_header(&[0, 0, 0, 3, 0xFF])).unwrap();
    reader.skip_blocks().unwrap();
    assert_eq!(reader.tell().unwrap(), 8 + 4 + 3 * 2 * 4);
}

#[test]
fn skip_blocks_then_read() {
    let payload = [0, 0, 0, 1, 0, 0, 0, 10, 0, 0, 0, 5, 0x2A];
    let mut reader = ValueReader::from_buf(with_forward_header(&payload)).unwrap();
    reader.skip_blocks().unwrap();
    assert_eq!(reader.byte().unwrap(), 0x2A);
}

#[test]
fn seek_variants() {
    let mut reader = ValueReader::from_buf(with_forward_header(&[1, 2, 3, 4])).unwrap();
    assert_eq!(reader.seek(SeekFrom::Start(9)).unwrap(), 9);
    assert_eq!(reader.byte().unwrap(), 2);
    assert_eq!(reader.seek(SeekFrom::Current(-2)).unwrap(), 8);
    assert_eq!(reader.seek(SeekFrom::End(-1)).unwrap(), 11);
    assert_eq!(reader.byte().unwrap(), 4);
    assert!(matches!(reader.seek(SeekFrom::Current(-20)), Err(Error::Io(_))));
    reader.seek_start().unwrap();
    assert_eq!(reader.tell().unwrap(), PAYLOAD_START);
    assert_eq!(reader.byte().unwrap(), 1);
}

#[test]
fn stream_len_keeps_position() {
    let mut reader = ValueReader::from_buf(with_forward_header(&[1, 2, 3, 4])).unwrap();
    assert_eq!(reader.stream_len().unwrap(), 12);
    assert_eq!(reader.tell().unwrap(), 8);
    reader.seek(SeekFrom::Start(10)).unwrap();
    assert_eq!(reader.stream_len().unwrap(), 12);
    assert_eq!(reader.tell().unwrap(), 10);
    reader.seek(SeekFrom::End(0)).unwrap();
    assert_eq!(reader.stream_len().unwrap(), 12);
    assert_eq!(reader.tell().unwrap(), 12);
    reader.seek(SeekFrom::Start(0)).unwrap();
    assert_eq!(reader.stream_len().unwrap(), 12);
    assert_eq!(reader.tell().unwrap(), 0);
}

#[test]
fn boxed_reader_keeps_reading() {
    let payload = [0, 0, 0, 7, 0x33];
    let mut reader = ValueReader::from_buf(with_forward_header(&payload)).unwrap();
    assert_eq!(reader.field().unwrap(), 7);
    let mut boxed = reader.boxed();
    assert_eq!(boxed.tell().unwrap(), 12);
    assert_eq!(boxed.byte().unwrap(), 0x33);
}

#[test]
fn byte_cursor_gives_back_its_bytes() {
    let cursor = ByteCursor::new(vec![1, 2, 3]);
    assert_eq!(cursor.into_inner(), vec![1, 2, 3]);
}

#[test]
fn blocks_and_string_over_a_trickling_source() {
    let mut bytes = forward_header();
    bytes.extend_from_slice(&[0, 0, 0, 1, 0, 0, 1, 0, 0, 0, 0, 3]);
    bytes.extend_from_slice(b"chr1");
    let source = Trickle { inner: ByteCursor::new(bytes) };
    let mut reader = ValueReader::new(source).unwrap();
    assert_eq!(reader.blocks().unwrap(), vec![Block { start: 256, length: 3 }]);
    assert_eq!(reader.string(4).unwrap(), "chr1");
    assert_eq!(reader.stream_len().unwrap(), 24);
    assert_eq!(reader.tell().unwrap(), 24);
}
