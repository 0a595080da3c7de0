//! The value decoder: typed reads of fields, bytes, strings and block lists
//! from a byte source whose byte order is fixed by its signature.

use vstd::prelude::*;
use vstd::utf8::{decode_utf8, valid_utf8};

use crate::block::Block;
use crate::error::{is_eof, is_io, Error, IoKind, Result};
use crate::field::{field_value, slice_to_field, Field, FileIndex, FIELD_SIZE};
use crate::source::{reachable, seek_target, ByteCursor, Reader, SeekFrom};

verus! {

/// The signature at offset zero of a container written most significant
/// byte first.
pub const SIGNATURE: Field = 0x1A412743;

/// The signature as it reads from a container written in the other byte
/// order.
pub const REV_SIGNATURE: Field = 0x4327411A;

/// Offset of the payload: just past the signature and the version.
pub const PAYLOAD_START: u64 = 8;

/// The `Field` stored at `pos` of `data`.
pub open spec fn field_at(data: Seq<u8>, pos: int, swap_endian: bool) -> int {
    field_value(data.subrange(pos, pos + 4), swap_endian)
}

/// The block list whose count stands at `pos`: the count, then every
/// start, then every length.
pub open spec fn block_list(data: Seq<u8>, pos: int, swap_endian: bool) -> Seq<Block> {
    let n = field_at(data, pos, swap_endian);
    Seq::new(
        n as nat,
        |i: int|
            Block {
                start: field_at(data, pos + 4 + 4 * i, swap_endian) as Field,
                length: field_at(data, pos + 4 + 4 * n + 4 * i, swap_endian) as Field,
            },
    )
}

/// Number of bytes that the block list at `pos` takes.
pub open spec fn block_list_size(data: Seq<u8>, pos: int, swap_endian: bool) -> int {
    4 + 8 * field_at(data, pos, swap_endian)
}

/// The byte order announced by the signature at `pos`: `Some(false)` for
/// the forward signature, `Some(true)` for the reversed one, `None` for any
/// other four bytes.
pub open spec fn signature_order(data: Seq<u8>, pos: int) -> Option<bool> {
    let sig = field_at(data, pos, false);
    if sig == SIGNATURE {
        Some(false)
    } else if sig == REV_SIGNATURE {
        Some(true)
    } else {
        None
    }
}

/// Whether `r` failed with a `FileFormat` error.
pub open spec fn is_file_format<T>(r: Result<T>) -> bool {
    r is Err && r->Err_0 is FileFormat
}

/// Whether `r` failed with an `UnsupportedVersion` error.
pub open spec fn is_unsupported_version<T>(r: Result<T>) -> bool {
    r is Err && r->Err_0 is UnsupportedVersion
}

/// Whether `r` failed with a `TextDecode` error.
pub open spec fn is_text_decode<T>(r: Result<T>) -> bool {
    r is Err && r->Err_0 is TextDecode
}

/// Relies on `String::from_utf8`: it accepts exactly the well-formed UTF-8
/// byte sequences, and the text it returns holds the characters they encode.
#[verifier::external_body]
fn text_from_utf8(bytes: Vec<u8>) -> (r: Option<String>)
    ensures
        r is Some <==> valid_utf8(bytes@),
        r is Some ==> r->Some_0@ == decode_utf8(bytes@),
{
    String::from_utf8(bytes).ok()
}

/// Whether `n` bytes can be read at `pos` of a stream of `len` bytes.
pub open spec fn fits(len: int, pos: int, n: int) -> bool {
    n == 0 || pos + n <= len
}

/// The `n` bytes at `pos` of `data`; empty when `n` is zero, wherever `pos`
/// lies.
pub open spec fn bytes_at(data: Seq<u8>, pos: int, n: int) -> Seq<u8> {
    if n == 0 {
        Seq::empty()
    } else {
        data.subrange(pos, pos + n)
    }
}

/// Decodes the primitive values of a container from a byte source.
pub struct ValueReader<R: Reader> {
    reader: R,
    twobit_version: Field,
    swap_endian: bool,
}

/// A decoder whose source type is erased.
pub type BoxValueReader = ValueReader<Box<dyn Reader>>;

impl<R: Reader> ValueReader<R> {
    /// Wraps `reader`, whose position should be the start of a container:
    /// checks the signature, which fixes the byte order, and the version.
    pub fn new(reader: R) -> (r: Result<Self>)
        ensures
            ({
                let data = reader.contents();
                let p = reader.position() as int;
                let order = signature_order(data, p);
                &&& r is Ok ==> {
                    &&& r->Ok_0.version() == 0
                    &&& r->Ok_0.modelled() == reader.modelled()
                    &&& r->Ok_0.dependable() == reader.dependable()
                }
                &&& reader.modelled() && r is Ok ==> {
                    let v = r->Ok_0;
                    &&& p + 8 <= data.len()
                    &&& order == Some(v.swapped())
                    &&& field_at(data, p + 4, v.swapped()) == 0
                    &&& v.contents() == data
                    &&& v.position() == p + 8
                }
                &&& reader.modelled() && is_file_format(r) ==> p + 4 <= data.len() && order is None
                &&& reader.modelled() && is_unsupported_version(r) ==> {
                    &&& p + 8 <= data.len()
                    &&& order is Some
                    &&& field_at(data, p + 4, order->Some_0) != 0
                }
                &&& reader.modelled() && reader.dependable() ==> {
                    &&& p + 4 > data.len() ==> is_eof(r)
                    &&& p + 4 <= data.len() && order is None ==> is_file_format(r)
                    &&& order is Some && p + 8 > data.len() ==> is_eof(r)
                    &&& order is Some && p + 8 <= data.len() ==> if field_at(
                        data,
                        p + 4,
                        order->Some_0,
                    ) == 0 {
                        r is Ok
                    } else {
                        is_unsupported_version(r)
                    }
                }
            }),
    {
        let mut result = Self { reader, twobit_version: 0, swap_endian: false };
        let signature = match result.field() {
            Ok(v) => v,
            Err(e) => {
                return Err(e);
            },
        };
        if signature != SIGNATURE {
            if signature == REV_SIGNATURE {
                result.swap_endian = true;
            } else {
                return Err(
                    Error::FileFormat("File does not start with 2bit signature".to_string()),
                );
            }
        }
        let version = match result.field() {
            Ok(v) => v,
            Err(e) => {
                return Err(e);
            },
        };
        if version == 0 {
            result.twobit_version = version;
            Ok(result)
        } else {
            Err(Error::UnsupportedVersion("Versions larger than 0 are not supported".to_string()))
        }
    }

    /// The same decoder over a boxed source, so that decoders over sources
    /// of different types can share one type.  The source moves into the
    /// box unchanged; what is stated here is what survives the erasure of
    /// its type: the byte order and the version.
    pub fn boxed(self) -> (r: BoxValueReader) where R: 'static
        ensures
            r.swapped() == self.swapped(),
            r.version() == self.version(),
    {
        let reader: Box<dyn Reader> = Box::new(self.reader);
        ValueReader { reader, twobit_version: self.twobit_version, swap_endian: self.swap_endian }
    }

    /// Moves to a new position of the stream and returns it.
    pub fn seek(&mut self, pos: SeekFrom) -> (r: Result<FileIndex>)
        ensures
            old(self).same_stream(final(self)),
            old(self).modelled() && r is Ok ==> r->Ok_0 == seek_target(
                pos,
                old(self).position() as int,
                old(self).contents().len() as int,
            ) && final(self).position() == r->Ok_0,
            r is Err ==> is_io(r),
            old(self).reliable() && reachable(
                seek_target(pos, old(self).position() as int, old(self).contents().len() as int),
            ) ==> r is Ok,
    {
        match self.reader.seek(pos) {
            Ok(v) => Ok(v as FileIndex),
            Err(e) => Err(Error::Io(e)),
        }
    }

    /// Moves to the payload, just past the signature and the version.
    pub fn seek_start(&mut self) -> (r: Result<()>)
        ensures
            old(self).same_stream(final(self)),
            old(self).modelled() && r is Ok ==> final(self).position() == PAYLOAD_START,
            r is Err ==> is_io(r),
            old(self).reliable() ==> r is Ok,
    {
        match self.seek(SeekFrom::Start(2 * FIELD_SIZE as u64)) {
            Ok(_) => Ok(()),
            Err(e) => Err(e),
        }
    }

    /// The current position, left where it is.
    pub fn tell(&mut self) -> (r: Result<FileIndex>)
        ensures
            old(self).same_stream(final(self)),
            old(self).modelled() && r is Ok ==> {
                &&& r->Ok_0 == old(self).position()
                &&& final(self).position() == old(self).position()
            },
            r is Err ==> is_io(r),
            old(self).reliable() && old(self).position() <= u64::MAX ==> r is Ok,
    {
        match self.reader.seek(SeekFrom::Current(0)) {
            Ok(v) => Ok(v as FileIndex),
            Err(e) => Err(Error::Io(e)),
        }
    }

    /// The length of the whole stream; the position is restored.
    pub fn stream_len(&mut self) -> (r: Result<u64>)
        ensures
            old(self).same_stream(final(self)),
            old(self).modelled() && r is Ok ==> {
                &&& r->Ok_0 == old(self).contents().len()
                &&& final(self).position() == old(self).position()
            },
            r is Err ==> is_io(r),
            old(self).reliable() && old(self).position() <= u64::MAX && old(self).contents().len()
                <= u64::MAX ==> r is Ok,
    {
        let old_pos = match self.reader.seek(SeekFrom::Current(0)) {
            Ok(v) => v,
            Err(e) => {
                return Err(Error::Io(e));
            },
        };
        let len = match self.reader.seek(SeekFrom::End(0)) {
            Ok(v) => v,
            Err(e) => {
                return Err(Error::Io(e));
            },
        };
        // when already at the end, a third seek would change nothing
        if old_pos != len {
            if let Err(e) = self.reader.seek(SeekFrom::Start(old_pos)) {
                return Err(Error::Io(e));
            }
        }
        Ok(len)
    }

    /// Every byte of the underlying stream.
    pub closed spec fn contents(&self) -> Seq<u8> {
        self.reader.contents()
    }

    /// The current position in the underlying stream.
    pub closed spec fn position(&self) -> nat {
        self.reader.position()
    }

    /// Whether the underlying source is described by `contents` and
    /// `position`.
    pub closed spec fn modelled(&self) -> bool {
        self.reader.modelled()
    }

    /// Whether the underlying source never fails.
    pub closed spec fn dependable(&self) -> bool {
        self.reader.dependable()
    }

    /// Whether the source is described by its model and never fails, so
    /// that every outcome is fixed by the bytes.
    pub open spec fn reliable(&self) -> bool {
        self.modelled() && self.dependable()
    }

    /// Whether fields are stored least significant byte first.
    pub closed spec fn swapped(&self) -> bool {
        self.swap_endian
    }

    /// The container version read at construction.
    pub closed spec fn version(&self) -> Field {
        self.twobit_version
    }

    /// What no operation changes: the bytes, the source's reliability, the
    /// byte order and the version.
    pub open spec fn same_stream(&self, other: &Self) -> bool {
        &&& other.contents() == self.contents()
        &&& other.modelled() == self.modelled()
        &&& other.dependable() == self.dependable()
        &&& other.swapped() == self.swapped()
        &&& other.version() == self.version()
    }

    /// Reads exactly `n_bytes` bytes, asking the source again after each
    /// short read.  A read that delivers nothing ends with `UnexpectedEof`.
    fn fill_completely(&mut self, n_bytes: usize) -> (r: Result<Vec<u8>>)
        ensures
            old(self).same_stream(final(self)),
            r is Ok ==> r->Ok_0@.len() == n_bytes,
            old(self).modelled() && r is Ok ==> {
                let p = old(self).position() as int;
                &&& fits(old(self).contents().len() as int, p, n_bytes as int)
                &&& r->Ok_0@ == bytes_at(old(self).contents(), p, n_bytes as int)
                &&& final(self).position() == p + n_bytes
            },
            old(self).reliable() ==> (r is Ok <==> fits(
                old(self).contents().len() as int,
                old(self).position() as int,
                n_bytes as int,
            )),
            r is Err ==> is_io(r),
            old(self).reliable() && r is Err ==> is_eof(r),
    {
        let ghost p = self.position() as int;
        let ghost data = self.contents();
        let mut buf: Vec<u8> = Vec::new();
        let mut bytes_read: usize = 0;
        while bytes_read < n_bytes
            invariant
                old(self).same_stream(self),
                data == self.contents(),
                p == old(self).position(),
                bytes_read <= n_bytes,
                buf@.len() == bytes_read,
                self.modelled() ==> {
                    &&& fits(data.len() as int, p, bytes_read as int)
                    &&& self.position() == p + bytes_read
                    &&& buf@ == bytes_at(data, p, bytes_read as int)
                },
            decreases n_bytes - bytes_read,
        {
            let ghost before = buf@;
            let got = match self.reader.read(&mut buf, n_bytes - bytes_read) {
                Ok(n) => n,
                Err(kind) => {
                    return Err(Error::Io(kind));
                },
            };
            if got == 0 {
                return Err(Error::Io(IoKind::UnexpectedEof));
            }
            proof {
                if self.modelled() {
                    assert(bytes_at(data, p, bytes_read + got) =~= bytes_at(
                        data,
                        p,
                        bytes_read as int,
                    ) + data.subrange(p + bytes_read, p + bytes_read + got));
                }
            }
            bytes_read = bytes_read + got;
        }
        Ok(buf)
    }

    /// Reads one `Field` in the stream's byte order.
    pub fn field(&mut self) -> (r: Result<Field>)
        ensures
            old(self).same_stream(final(self)),
            old(self).modelled() && r is Ok ==> {
                let p = old(self).position() as int;
                &&& p + 4 <= old(self).contents().len()
                &&& r->Ok_0 == field_at(old(self).contents(), p, old(self).swapped())
                &&& final(self).position() == p + 4
            },
            old(self).reliable() ==> (r is Ok <==> old(self).position() + 4 <= old(
                self,
            ).contents().len()),
            r is Err ==> is_io(r),
            old(self).reliable() && r is Err ==> is_eof(r),
    {
        let bytes = match self.fill_completely(FIELD_SIZE) {
            Ok(v) => v,
            Err(e) => {
                return Err(e);
            },
        };
        let field: [u8; FIELD_SIZE] = [bytes[0], bytes[1], bytes[2], bytes[3]];
        proof {
            assert(field@ =~= bytes@);
        }
        Ok(slice_to_field(field, self.swap_endian))
    }

    /// Reads one byte.
    pub fn byte(&mut self) -> (r: Result<u8>)
        ensures
            old(self).same_stream(final(self)),
            old(self).modelled() && r is Ok ==> {
                let p = old(self).position() as int;
                &&& p + 1 <= old(self).contents().len()
                &&& r->Ok_0 == old(self).contents()[p]
                &&& final(self).position() == p + 1
            },
            old(self).reliable() ==> (r is Ok <==> old(self).position() + 1 <= old(
                self,
            ).contents().len()),
            r is Err ==> is_io(r),
            old(self).reliable() && r is Err ==> is_eof(r),
    {
        let bytes = match self.fill_completely(1) {
            Ok(v) => v,
            Err(e) => {
                return Err(e);
            },
        };
        Ok(bytes[0])
    }

    /// Reads `length` bytes and decodes them as UTF-8 text.
    pub fn string(&mut self, length: usize) -> (r: Result<String>)
        ensures
            old(self).same_stream(final(self)),
            ({
                let data = old(self).contents();
                let p = old(self).position() as int;
                let bytes = bytes_at(data, p, length as int);
                &&& old(self).modelled() && r is Ok ==> {
                    &&& fits(data.len() as int, p, length as int)
                    &&& valid_utf8(bytes)
                    &&& r->Ok_0@ == decode_utf8(bytes)
                    &&& final(self).position() == p + length
                }
                &&& r is Err ==> is_io(r) || is_text_decode(r)
                &&& old(self).modelled() && is_text_decode(r) ==> {
                    &&& fits(data.len() as int, p, length as int)
                    &&& !valid_utf8(bytes)
                    &&& final(self).position() == p + length
                }
                &&& old(self).reliable() ==> {
                    &&& !fits(data.len() as int, p, length as int) ==> is_eof(r)
                    &&& fits(data.len() as int, p, length as int) ==> if valid_utf8(bytes) {
                        r is Ok
                    } else {
                        is_text_decode(r)
                    }
                }
            }),
    {
        let buf = match self.fill_completely(length) {
            Ok(v) => v,
            Err(e) => {
                return Err(e);
            },
        };
        match text_from_utf8(buf) {
            Some(text) => Ok(text),
            None => Err(Error::TextDecode),
        }
    }

    /// Reads a block list: the count, then every start, then every length.
    pub fn blocks(&mut self) -> (r: Result<Vec<Block>>)
        ensures
            old(self).same_stream(final(self)),
            ({
                let data = old(self).contents();
                let p = old(self).position() as int;
                let swap = old(self).swapped();
                &&& old(self).modelled() && r is Ok ==> {
                    &&& p + block_list_size(data, p, swap) <= data.len()
                    &&& r->Ok_0@ == block_list(data, p, swap)
                    &&& final(self).position() == p + block_list_size(data, p, swap)
                }
                &&& r is Err ==> is_io(r)
                &&& old(self).reliable() ==> (r is Ok <==> p + block_list_size(data, p, swap)
                    <= data.len())
                &&& old(self).reliable() && r is Err ==> is_eof(r)
            }),
    {
        let ghost data = self.contents();
        let ghost p = self.position() as int;
        let ghost swap = self.swapped();
        let num_blocks = match self.field() {
            Ok(v) => v as usize,
            Err(e) => {
                return Err(e);
            },
        };
        let ghost n = num_blocks as int;
        let mut result: Vec<Block> = Vec::with_capacity(num_blocks);
        let mut i: usize = 0;
        while i < num_blocks
            invariant
                old(self).same_stream(self),
                data == old(self).contents(),
                p == old(self).position(),
                swap == old(self).swapped(),
                n == num_blocks,
                i <= num_blocks,
                result.len() == i,
                self.modelled() ==> {
                    &&& n == field_at(data, p, swap)
                    &&& p + 4 + 4 * i <= data.len()
                    &&& self.position() == p + 4 + 4 * i
                    &&& forall|j: int|
                        0 <= j < i ==> #[trigger] result@[j].start == field_at(
                            data,
                            p + 4 + 4 * j,
                            swap,
                        )
                },
            decreases num_blocks - i,
        {
            let start = match self.field() {
                Ok(v) => v,
                Err(e) => {
                    return Err(e);
                },
            };
            // the length follows once every start has been read
            result.push(Block { start, length: 0 });
            i = i + 1;
        }
        let mut k: usize = 0;
        while k < num_blocks
            invariant
                old(self).same_stream(self),
                data == old(self).contents(),
                p == old(self).position(),
                swap == old(self).swapped(),
                n == num_blocks,
                k <= num_blocks,
                result.len() == num_blocks,
                self.modelled() ==> {
                    &&& n == field_at(data, p, swap)
                    &&& p + 4 + 4 * n + 4 * k <= data.len()
                    &&& self.position() == p + 4 + 4 * n + 4 * k
                    &&& forall|j: int|
                        0 <= j < n ==> #[trigger] result@[j].start == field_at(
                            data,
                            p + 4 + 4 * j,
                            swap,
                        )
                    &&& forall|j: int|
                        0 <= j < k ==> #[trigger] result@[j].length == field_at(
                            data,
                            p + 4 + 4 * n + 4 * j,
                            swap,
                        )
                },
            decreases num_blocks - k,
        {
            let length = match self.field() {
                Ok(v) => v,
                Err(e) => {
                    return Err(e);
                },
            };
            let start = result[k].start;
            result.set(k, Block { start, length });
            k = k + 1;
        }
        proof {
            if self.modelled() {
                let expected = block_list(data, p, swap);
                assert forall|j: int| 0 <= j < n implies #[trigger] result@[j] == expected[j] by {
                    assert(result@[j].start == expected[j].start);
                    assert(result@[j].length == expected[j].length);
                }
                assert(result@ =~= expected);
            }
        }
        Ok(result)
    }

    /// Passes over a block list without decoding it: reads the count and
    /// moves past both arrays.
    pub fn skip_blocks(&mut self) -> (r: Result<()>)
        ensures
            old(self).same_stream(final(self)),
            ({
                let data = old(self).contents();
                let p = old(self).position() as int;
                let swap = old(self).swapped();
                &&& old(self).modelled() && r is Ok ==> {
                    &&& p + 4 <= data.len()
                    &&& final(self).position() == p + block_list_size(data, p, swap)
                }
                &&& r is Err ==> is_io(r)
                &&& old(self).reliable() ==> (r is Ok <==> p + 4 <= data.len() && reachable(
                    p + block_list_size(data, p, swap),
                ))
                &&& old(self).reliable() && p + 4 > data.len() ==> is_eof(r)
            }),
    {
        let num_blocks = match self.field() {
            Ok(v) => v,
            Err(e) => {
                return Err(e);
            },
        };
        let field_size: i64 = FIELD_SIZE as i64;
        assert(field_size == 4);
        let skip: i64 = num_blocks as i64 * 2 * field_size;
        match self.reader.seek(SeekFrom::Current(skip)) {
            Ok(_) => Ok(()),
            Err(e) => Err(Error::Io(e)),
        }
    }
}

impl ValueReader<ByteCursor> {
    /// Wraps bytes held in memory, which start with the signature.
    pub fn from_buf(buf: Vec<u8>) -> (r: Result<Self>)
        ensures
            ({
                let data = buf@;
                let order = signature_order(data, 0);
                &&& r is Ok <==> data.len() >= 8 && order is Some && field_at(
                    data,
                    4,
                    order->Some_0,
                ) == 0
                &&& r is Ok ==> {
                    &&& r->Ok_0.swapped() == order->Some_0
                    &&& r->Ok_0.version() == 0
                    &&& r->Ok_0.contents() == data
                    &&& r->Ok_0.modelled()
                    &&& r->Ok_0.dependable()
                    &&& r->Ok_0.position() == 8
                }
                &&& data.len() < 4 ==> is_eof(r)
                &&& data.len() >= 4 && order is None ==> is_file_format(r)
                &&& data.len() < 8 && order is Some ==> is_eof(r)
                &&& data.len() >= 8 && order is Some && field_at(data, 4, order->Some_0) != 0
                    ==> is_unsupported_version(r)
            }),
    {
        ValueReader::new(ByteCursor::new(buf))
    }
}

} // verus!
