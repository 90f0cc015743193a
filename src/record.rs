//! Records in the "unformatted sequential" convention: a 4-byte little-endian
//! byte count, the payload, and the same byte count again.

use vstd::prelude::*;

use crate::sealed::Sealed;

verus! {

/// Why a record could not be read.
#[derive(Debug, Clone, Copy, PartialEq, Eq, Structural)]
pub enum RecordError {
    /// The data ended before the record did.
    UnexpectedEof,
    /// The leading byte count differs from the size of the requested payload.
    SizeMismatch { expected: u64, found: u32 },
    /// The trailing byte count differs from the leading one.
    TrailerMismatch { leading: u32, trailing: u32 },
}

/// The unsigned integer whose little-endian encoding is `b`.
pub open spec fn le_value(b: Seq<u8>) -> nat
    decreases b.len(),
{
    if b.len() == 0 {
        0
    } else {
        b[0] as nat + 256 * le_value(b.drop_first())
    }
}

/// The byte-count marker that starts at `pos`.
pub open spec fn marker_at(data: Seq<u8>, pos: int) -> nat {
    le_value(data.subrange(pos, pos + 4))
}

/// What reading a record with a payload of `size` bytes at `pos` gives: the
/// position just after the record, or the first defect met.
pub open spec fn record_outcome(data: Seq<u8>, pos: nat, size: nat) -> Result<nat, RecordError> {
    if data.len() < pos + 4 {
        Err(RecordError::UnexpectedEof)
    } else if marker_at(data, pos as int) != size {
        Err(RecordError::SizeMismatch { expected: size as u64, found: marker_at(data, pos as int) as u32 })
    } else if data.len() < pos + 8 + size {
        Err(RecordError::UnexpectedEof)
    } else if marker_at(data, (pos + 4 + size) as int) != size {
        Err(
            RecordError::TrailerMismatch {
                leading: size as u32,
                trailing: marker_at(data, (pos + 4 + size) as int) as u32,
            },
        )
    } else {
        Ok(pos + 8 + size)
    }
}

/// A read-only cursor over a byte buffer.
pub struct ByteCursor<'a> {
    data: &'a [u8],
    pos: usize,
}

impl<'a> ByteCursor<'a> {
    #[verifier::type_invariant]
    spec fn inv(self) -> bool {
        self.pos <= self.data@.len()
    }

    /// The bytes the cursor walks over.
    pub closed spec fn bytes(self) -> Seq<u8> {
        self.data@
    }

    /// How many bytes have been consumed.
    pub closed spec fn offset(self) -> nat {
        self.pos as nat
    }

    /// A cursor at the start of `data`.
    pub fn new(data: &'a [u8]) -> (r: Self)
        ensures
            r.bytes() == data@,
            r.offset() == 0,
    {
        ByteCursor { data, pos: 0 }
    }

    /// The number of bytes not consumed yet.
    pub fn remaining(&self) -> (r: usize)
        ensures
            self.offset() <= self.bytes().len(),
            r == self.bytes().len() - self.offset(),
    {
        proof {
            use_type_invariant(self);
        }
        self.data.len() - self.pos
    }
}

/// An item type stored little-endian in records: `u32` for counts, `u64` for
/// the bit pattern of an IEEE-754 double.
pub trait FromRawBinary: Sealed + Sized {
    /// Number of bytes of one encoded item.
    spec fn byte_size() -> nat;

    /// The item encoded by `b`.
    spec fn from_le(b: Seq<u8>) -> Self;

    fn read_size() -> (r: usize)
        ensures
            r == Self::byte_size(),
            1 <= r <= 8,
    ;

    /// Decodes one item at the cursor and moves past it.
    fn read_in(reader: &mut ByteCursor) -> (r: Result<Self, RecordError>)
        ensures
            final(reader).bytes() == old(reader).bytes(),
            old(reader).offset() + Self::byte_size() <= old(reader).bytes().len() ==> {
                &&& r == Ok::<Self, RecordError>(
                    Self::from_le(
                        old(reader).bytes().subrange(
                            old(reader).offset() as int,
                            (old(reader).offset() + Self::byte_size()) as int,
                        ),
                    ),
                )
                &&& final(reader).offset() == old(reader).offset() + Self::byte_size()
            },
            old(reader).offset() + Self::byte_size() > old(reader).bytes().len() ==> {
                &&& r == Err::<Self, RecordError>(RecordError::UnexpectedEof)
                &&& final(reader).offset() == old(reader).offset()
            },
    ;
}

proof fn lemma_le_value_4(b: Seq<u8>)
    requires
        b.len() == 4,
    ensures
        le_value(b) == b[0] + 256 * (b[1] + 256 * (b[2] + 256 * (b[3] as nat))),
{
    reveal_with_fuel(le_value, 5);
}

proof fn lemma_le_value_8(b: Seq<u8>)
    requires
        b.len() == 8,
    ensures
        le_value(b) == b[0] + 256 * (b[1] + 256 * (b[2] + 256 * (b[3] + 256 * (b[4] + 256 * (b[5]
            + 256 * (b[6] + 256 * (b[7] as nat))))))),
{
    reveal_with_fuel(le_value, 9);
}

impl FromRawBinary for u32 {
    open spec fn byte_size() -> nat {
        4
    }

    open spec fn from_le(b: Seq<u8>) -> u32 {
        le_value(b) as u32
    }

    fn read_size() -> (r: usize) {
        4
    }

    fn read_in(reader: &mut ByteCursor) -> (r: Result<u32, RecordError>) {
        proof {
            use_type_invariant(&*reader);
        }
        if reader.data.len() - reader.pos < 4 {
            return Err(RecordError::UnexpectedEof);
        }
        let p = reader.pos;
        let mut v: u32 = reader.data[p + 3] as u32;
        v = v * 256 + reader.data[p + 2] as u32;
        v = v * 256 + reader.data[p + 1] as u32;
        v = v * 256 + reader.data[p] as u32;
        proof {
            lemma_le_value_4(reader.data@.subrange(p as int, p + 4));
        }
        reader.pos = p + 4;
        Ok(v)
    }
}

impl FromRawBinary for u64 {
    open spec fn byte_size() -> nat {
        8
    }

    open spec fn from_le(b: Seq<u8>) -> u64 {
        le_value(b) as u64
    }

    fn read_size() -> (r: usize) {
        8
    }

    fn read_in(reader: &mut ByteCursor) -> (r: Result<u64, RecordError>) {
        proof {
            use_type_invariant(&*reader);
        }
        if reader.data.len() - reader.pos < 8 {
            return Err(RecordError::UnexpectedEof);
        }
        let p = reader.pos;
        let mut v: u64 = reader.data[p + 7] as u64;
        v = v * 256 + reader.data[p + 6] as u64;
        v = v * 256 + reader.data[p + 5] as u64;
        v = v * 256 + reader.data[p + 4] as u64;
        v = v * 256 + reader.data[p + 3] as u64;
        v = v * 256 + reader.data[p + 2] as u64;
        v = v * 256 + reader.data[p + 1] as u64;
        v = v * 256 + reader.data[p] as u64;
        proof {
            lemma_le_value_8(reader.data@.subrange(p as int, p + 8));
        }
        reader.pos = p + 8;
        Ok(v)
    }
}

/// The items of a record whose payload starts after the marker at `pos`.
pub open spec fn record_items<T: FromRawBinary>(data: Seq<u8>, pos: nat, n: nat) -> Seq<T> {
    Seq::new(
        n,
        |k: int|
            T::from_le(
                data.subrange(pos + 4 + k * T::byte_size(), pos + 4 + (k + 1) * T::byte_size()),
            ),
    )
}

/// Reads one record of `buffer.len()` items into `buffer`.
///
/// The leading byte count must equal the payload size of the buffer and the
/// trailing byte count must repeat it; on success the cursor sits just after
/// the record. On failure the buffer content is unspecified.
pub fn read_fort_record<T: FromRawBinary>(reader: &mut ByteCursor, buffer: &mut [T]) -> (r: Result<
    (),
    RecordError,
>)
    requires
        old(buffer)@.len() * T::byte_size() <= u64::MAX,
    ensures
        final(reader).bytes() == old(reader).bytes(),
        final(buffer)@.len() == old(buffer)@.len(),
        r is Ok <==> record_outcome(
            old(reader).bytes(),
            old(reader).offset(),
            old(buffer)@.len() * T::byte_size(),
        ) is Ok,
        r is Ok ==> {
            &&& final(reader).offset() == record_outcome(
                old(reader).bytes(),
                old(reader).offset(),
                old(buffer)@.len() * T::byte_size(),
            )->Ok_0
            &&& final(buffer)@ == record_items::<T>(
                old(reader).bytes(),
                old(reader).offset(),
                old(buffer)@.len(),
            )
        },
        r matches Err(e) ==> record_outcome(
            old(reader).bytes(),
            old(reader).offset(),
            old(buffer)@.len() * T::byte_size(),
        ) == Err::<nat, RecordError>(e),
{
    let ghost data = reader.bytes();
    let ghost pos = reader.offset();
    let ghost n = buffer@.len();
    let item = T::read_size();
    let ghost size = n * T::byte_size();
    let expected: u64 = buffer.len() as u64 * item as u64;
    let pre = match u32::read_in(reader) {
        Ok(v) => v,
        Err(e) => return Err(e),
    };
    proof {
        lemma_le_value_4(data.subrange(pos as int, pos + 4int));
    }
    if pre as u64 != expected {
        return Err(RecordError::SizeMismatch { expected, found: pre });
    }
    let mut i: usize = 0;
    while i < buffer.len()
        invariant
            data == old(reader).bytes(),
            pos == old(reader).offset(),
            reader.bytes() == data,
            buffer@.len() == n,
            n == old(buffer)@.len(),
            size == n * T::byte_size(),
            1 <= T::byte_size() <= 8,
            i <= n,
            reader.offset() == pos + 4 + i * T::byte_size(),
            marker_at(data, pos as int) == size,
            data.len() >= pos + 4,
            pre == size,
            forall|k: int|
                0 <= k < i ==> buffer@[k] == record_items::<T>(data, pos, n)[k],
        decreases n - i,
    {
        let v = match T::read_in(reader) {
            Ok(v) => v,
            Err(e) => {
                proof {
                    assert((i + 1) * T::byte_size() <= n * T::byte_size()) by (nonlinear_arith)
                        requires i + 1 <= n, T::byte_size() >= 1;
                    assert((i + 1) * T::byte_size() == i * T::byte_size() + T::byte_size()) by (nonlinear_arith);
                }
                return Err(e);
            },
        };
        proof {
            assert((i + 1) * T::byte_size() == i * T::byte_size() + T::byte_size()) by (nonlinear_arith);
        }
        buffer[i] = v;
        i = i + 1;
    }
    let post = match u32::read_in(reader) {
        Ok(v) => v,
        Err(e) => return Err(e),
    };
    proof {
        lemma_le_value_4(data.subrange(pos + 4int + size, pos + 8int + size));
    }
    if post != pre {
        return Err(RecordError::TrailerMismatch { leading: pre, trailing: post });
    }
    proof {
        assert(buffer@ =~= record_items::<T>(data, pos, n));
    }
    Ok(())
}

} // verus!
