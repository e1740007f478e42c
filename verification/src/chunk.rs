//! Chunks: the records that a PNG file is made of.
//!
//! On the wire a chunk is the length of its data as a big-endian 32-bit
//! integer, its four-letter type, the data, and the CRC-32 of type and
//! data, again big-endian.
use crate::be32::{
    be32_bytes, be32_value, lemma_bytes_of_value, lemma_value_of_bytes, push_be32, read_be32,
};
use crate::chunk_type::{is_tag, ChunkType};
use crate::crc::{crc32, crc32_spec, feed_slice, lemma_feed_concat, ALL_ONES};
use crate::error::PngError;
use vstd::array::array_as_slice;
use vstd::prelude::*;
use vstd::slice::{slice_subrange, slice_to_vec};
use vstd::utf8::{decode_utf8, valid_utf8};

verus! {

/// What a chunk is: its type and its data. The checksum follows from the
/// two.
pub struct ChunkView {
    /// The bytes of the type.
    pub tag: Seq<u8>,
    /// The data.
    pub data: Seq<u8>,
}

impl ChunkView {
    /// True of the chunks that exist: the type is four letters, and the
    /// length of the data fits the 32-bit length field.
    pub open spec fn wf(self) -> bool {
        &&& is_tag(self.tag)
        &&& self.data.len() <= u32::MAX
    }

    /// The CRC-32 of type and data.
    pub open spec fn checksum(self) -> u32 {
        crc32_spec(self.tag + self.data)
    }

    /// The number of bytes that the chunk takes on the wire.
    pub open spec fn framed_len(self) -> int {
        (12 + self.data.len()) as int
    }

    /// The chunk on the wire.
    #[verifier::opaque]
    pub open spec fn as_bytes(self) -> Seq<u8> {
        be32_bytes(self.data.len() as u32) + self.tag + self.data + be32_bytes(self.checksum())
    }
}

/// What reading one chunk from the start of `bytes` gives. Bytes after the
/// chunk are not looked at.
pub open spec fn spec_parse(bytes: Seq<u8>) -> Result<ChunkView, PngError> {
    if bytes.len() < 4 {
        Err(PngError::TruncatedBuffer)
    } else {
        let n = be32_value(bytes.subrange(0, 4)) as int;
        let tag = bytes.subrange(4, 8);
        let data = bytes.subrange(8, 8 + n);
        if bytes.len() < 12 + n {
            Err(PngError::TruncatedBuffer)
        } else if !is_tag(tag) {
            Err(PngError::InvalidTagBytes)
        } else if be32_value(bytes.subrange(8 + n, 12 + n)) != crc32_spec(tag + data) {
            Err(PngError::ChecksumMismatch)
        } else {
            Ok(ChunkView { tag, data })
        }
    }
}

/// The fields of a chunk on the wire, each at its offset.
pub proof fn lemma_layout(c: ChunkView)
    requires
        c.wf(),
    ensures
        c.as_bytes().len() == c.framed_len(),
        c.as_bytes().subrange(0, 4) == be32_bytes(c.data.len() as u32),
        c.as_bytes().subrange(4, 8) == c.tag,
        c.as_bytes().subrange(8, c.framed_len() - 4) == c.data,
        c.as_bytes().subrange(c.framed_len() - 4, c.framed_len()) == be32_bytes(c.checksum()),
{
    reveal(ChunkView::as_bytes);
    let n = c.data.len() as int;
    let b = c.as_bytes();
    lemma_value_of_bytes(n as u32);
    lemma_value_of_bytes(c.checksum());
    assert(b.subrange(0, 4) =~= be32_bytes(n as u32));
    assert(b.subrange(4, 8) =~= c.tag);
    assert(b.subrange(8, 8 + n) =~= c.data);
    assert(b.subrange(8 + n, 12 + n) =~= be32_bytes(c.checksum()));
}

/// Reading only looks at the bytes of the first chunk: two buffers that
/// agree on the length field and on as many bytes as it announces are read
/// alike.
pub proof fn lemma_parse_reads_prefix(a: Seq<u8>, b: Seq<u8>)
    requires
        a.len() >= 4,
        b.len() >= 4,
        a.subrange(0, 4) == b.subrange(0, 4),
        a.len() >= 12 + be32_value(a.subrange(0, 4)),
        b.len() >= 12 + be32_value(a.subrange(0, 4)),
        a.subrange(0, 12 + be32_value(a.subrange(0, 4))) == b.subrange(
            0,
            12 + be32_value(a.subrange(0, 4)),
        ),
    ensures
        spec_parse(a) == spec_parse(b),
{
    let n = be32_value(a.subrange(0, 4)) as int;
    let pa = a.subrange(0, 12 + n);
    let pb = b.subrange(0, 12 + n);
    assert(a.subrange(4, 8) =~= pa.subrange(4, 8));
    assert(b.subrange(4, 8) =~= pb.subrange(4, 8));
    assert(a.subrange(8, 8 + n) =~= pa.subrange(8, 8 + n));
    assert(b.subrange(8, 8 + n) =~= pb.subrange(8, 8 + n));
    assert(a.subrange(8 + n, 12 + n) =~= pa.subrange(8 + n, 12 + n));
    assert(b.subrange(8 + n, 12 + n) =~= pb.subrange(8 + n, 12 + n));
}

/// A chunk that is written and read again is the same chunk, whatever
/// follows it in the buffer.
pub proof fn lemma_parse_as_bytes(c: ChunkView, rest: Seq<u8>)
    requires
        c.wf(),
    ensures
        spec_parse(c.as_bytes() + rest) == Ok::<ChunkView, PngError>(c),
        spec_parse(c.as_bytes()) == Ok::<ChunkView, PngError>(c),
{
    let n = c.data.len() as int;
    let b = c.as_bytes();
    lemma_layout(c);
    lemma_value_of_bytes(n as u32);
    lemma_value_of_bytes(c.checksum());
    assert(spec_parse(b) == Ok::<ChunkView, PngError>(c));
    let long = b + rest;
    assert(long.subrange(0, 4) =~= b.subrange(0, 4));
    assert(long.subrange(0, 12 + n) =~= b.subrange(0, 12 + n));
    lemma_parse_reads_prefix(b, long);
}

/// A chunk that was read from a buffer is one that exists, and written
/// again it gives the bytes it was read from.
pub proof fn lemma_as_bytes_of_parsed(bytes: Seq<u8>)
    requires
        spec_parse(bytes) is Ok,
    ensures
        spec_parse(bytes)->Ok_0.wf(),
        spec_parse(bytes)->Ok_0.framed_len() <= bytes.len(),
        spec_parse(bytes)->Ok_0.as_bytes() == bytes.subrange(
            0,
            spec_parse(bytes)->Ok_0.framed_len(),
        ),
{
    reveal(ChunkView::as_bytes);
    let c = spec_parse(bytes)->Ok_0;
    let n = be32_value(bytes.subrange(0, 4)) as int;
    assert(c.data.len() == n);
    lemma_bytes_of_value(bytes.subrange(0, 4));
    lemma_bytes_of_value(bytes.subrange(8 + n, 12 + n));
    assert(c.as_bytes() =~= bytes.subrange(0, 12 + n));
}

/// A buffer that holds a chunk with anything but that chunk's checksum in
/// the checksum field is refused, and the checksum is named as the reason.
pub proof fn lemma_checksum_enforced(c: ChunkView, bytes: Seq<u8>)
    requires
        c.wf(),
        bytes.len() >= c.framed_len(),
        bytes.subrange(0, c.framed_len() - 4) == c.as_bytes().subrange(0, c.framed_len() - 4),
        bytes.subrange(c.framed_len() - 4, c.framed_len()) != be32_bytes(c.checksum()),
    ensures
        spec_parse(bytes) == Err::<ChunkView, PngError>(PngError::ChecksumMismatch),
{
    let n = c.data.len() as int;
    let b = c.as_bytes();
    lemma_layout(c);
    lemma_value_of_bytes(n as u32);
    let head = bytes.subrange(0, 8 + n);
    assert(bytes.subrange(0, 4) =~= head.subrange(0, 4));
    assert(b.subrange(0, 4) =~= b.subrange(0, 8 + n).subrange(0, 4));
    assert(bytes.subrange(4, 8) =~= head.subrange(4, 8));
    assert(b.subrange(4, 8) =~= b.subrange(0, 8 + n).subrange(4, 8));
    assert(bytes.subrange(8, 8 + n) =~= head.subrange(8, 8 + n));
    assert(b.subrange(8, 8 + n) =~= b.subrange(0, 8 + n).subrange(8, 8 + n));
    lemma_bytes_of_value(bytes.subrange(8 + n, 12 + n));
}

/// Flipping one bit in the checksum field of a written chunk makes a
/// buffer that is refused for its checksum.
pub proof fn lemma_flipped_checksum_bit(c: ChunkView, at: int, bit: u8)
    requires
        c.wf(),
        c.framed_len() - 4 <= at < c.framed_len(),
        bit < 8,
    ensures
        spec_parse(c.as_bytes().update(at, c.as_bytes()[at] ^ (1u8 << bit))) == Err::<
            ChunkView,
            PngError,
        >(PngError::ChecksumMismatch),
{
    let n = c.data.len() as int;
    let b = c.as_bytes();
    let old_byte = b[at];
    let new_byte = old_byte ^ (1u8 << bit);
    let flipped = b.update(at, new_byte);
    lemma_layout(c);
    assert(new_byte != old_byte) by (bit_vector)
        requires
            new_byte == old_byte ^ (1u8 << bit),
            bit < 8,
    ;
    assert(flipped.subrange(0, 8 + n) =~= b.subrange(0, 8 + n));
    assert(flipped.subrange(8 + n, 12 + n)[at - (8 + n)] == new_byte);
    assert(b.subrange(8 + n, 12 + n)[at - (8 + n)] == old_byte);
    lemma_checksum_enforced(c, flipped);
}

/// One chunk of a PNG file.
///
/// The checksum is computed when the chunk is made and checked when it is
/// read, so a value of this type always carries the CRC-32 of its type and
/// data.
#[derive(Debug)]
pub struct Chunk {
    chunk_type: ChunkType,
    data: Vec<u8>,
    crc: u32,
}

impl View for Chunk {
    type V = ChunkView;

    closed spec fn view(&self) -> ChunkView {
        ChunkView { tag: self.chunk_type@, data: self.data@ }
    }
}

impl Chunk {
    /// The checksum that the chunk carries.
    pub closed spec fn stored_checksum(self) -> u32 {
        self.crc
    }

    /// What holds of every chunk: its type is four letters, its data fits
    /// the length field, and it carries the checksum of the two.
    #[verifier::type_invariant]
    pub open spec fn checksum_kept(self) -> bool {
        &&& self@.wf()
        &&& self.stored_checksum() == self@.checksum()
    }

    /// Makes a chunk of the given type and data, and computes its checksum.
    /// The data must fit the 32-bit length field.
    pub fn new(chunk_type: ChunkType, data: Vec<u8>) -> (c: Chunk)
        requires
            data@.len() <= u32::MAX,
        ensures
            c@ == (ChunkView { tag: chunk_type@, data: data@ }),
            c@.wf(),
    {
        let tag: [u8; 4] = chunk_type.bytes();
        let reg: u32 = feed_slice(ALL_ONES, array_as_slice(&tag));
        let reg: u32 = feed_slice(reg, data.as_slice());
        proof {
            lemma_feed_concat(ALL_ONES, tag@, data@);
        }
        Chunk { chunk_type, data, crc: reg ^ ALL_ONES }
    }

    /// Reads the chunk at the start of `bytes`.
    ///
    /// Fails with `TruncatedBuffer` if the buffer ends before the chunk
    /// does, with `InvalidTagBytes` if the type is not four letters, and
    /// with `ChecksumMismatch` if the stored checksum is not the one
    /// computed over type and data. Bytes after the chunk are ignored.
    pub fn parse(bytes: &[u8]) -> (r: Result<Chunk, PngError>)
        ensures
            r matches Ok(c) ==> spec_parse(bytes@) == Ok::<ChunkView, PngError>(c@) && c@.wf(),
            r matches Err(e) ==> spec_parse(bytes@) == Err::<ChunkView, PngError>(e),
    {
        if bytes.len() < 12 {
            return Err(PngError::TruncatedBuffer);
        }
        let declared: u32 = read_be32(bytes, 0);
        let n: usize = declared as usize;
        if bytes.len() - 12 < n {
            return Err(PngError::TruncatedBuffer);
        }
        let raw_tag: [u8; 4] = [bytes[4], bytes[5], bytes[6], bytes[7]];
        assert(raw_tag@ =~= bytes@.subrange(4, 8));
        let chunk_type = match ChunkType::try_from(raw_tag) {
            Ok(t) => t,
            Err(e) => {
                return Err(e);
            },
        };
        let stored: u32 = read_be32(bytes, 8 + n);
        let crc: u32 = crc32(slice_subrange(bytes, 4, 8 + n));
        assert(bytes@.subrange(4, 8 + n) =~= bytes@.subrange(4, 8) + bytes@.subrange(8, 8 + n));
        if crc != stored {
            return Err(PngError::ChecksumMismatch);
        }
        let data: Vec<u8> = slice_to_vec(slice_subrange(bytes, 8, 8 + n));
        Ok(Chunk { chunk_type, data, crc })
    }

    /// The length of the data, as the length field stores it.
    pub fn length(&self) -> (r: u32)
        ensures
            r == self@.data.len(),
    {
        proof {
            use_type_invariant(self);
        }
        self.data.len() as u32
    }

    /// The type of the chunk.
    pub fn tag(&self) -> (r: &ChunkType)
        ensures
            r@ == self@.tag,
            self@.wf(),
    {
        proof {
            use_type_invariant(self);
            use_type_invariant(&self.chunk_type);
        }
        &self.chunk_type
    }

    /// The data of the chunk.
    pub fn data(&self) -> (r: &[u8])
        ensures
            r@ == self@.data,
    {
        self.data.as_slice()
    }

    /// The CRC-32 of type and data.
    pub fn checksum(&self) -> (r: u32)
        ensures
            r == self@.checksum(),
    {
        proof {
            use_type_invariant(self);
        }
        self.crc
    }

    /// The data read as UTF-8 text. Fails with `InvalidUtf8` if it is not.
    pub fn data_as_text(&self) -> (r: Result<String, PngError>)
        ensures
            valid_utf8(self@.data) ==> (r matches Ok(s) && s@ == decode_utf8(self@.data)),
            !valid_utf8(self@.data) ==> r matches Err(PngError::InvalidUtf8),
    {
        match String::from_utf8(slice_to_vec(self.data.as_slice())) {
            Ok(s) => Ok(s),
            Err(_) => Err(PngError::InvalidUtf8),
        }
    }

    /// The chunk on the wire: length, type, data, checksum.
    pub fn as_bytes(&self) -> (r: Vec<u8>)
        ensures
            r@ == self@.as_bytes(),
            r@.len() == 12 + self@.data.len(),
    {
        proof {
            use_type_invariant(self);
            lemma_layout(self@);
        }
        proof {
            reveal(ChunkView::as_bytes);
        }
        let tag: [u8; 4] = self.chunk_type.bytes();
        let mut out: Vec<u8> = Vec::new();
        push_be32(&mut out, self.data.len() as u32);
        out.extend_from_slice(array_as_slice(&tag));
        out.extend_from_slice(self.data.as_slice());
        push_be32(&mut out, self.crc);
        assert(out@ =~= self@.as_bytes());
        out
    }
}

impl Clone for Chunk {
    /// A copy with the same type, data and checksum.
    fn clone(&self) -> (r: Chunk)
        ensures
            r@ == self@,
    {
        proof {
            use_type_invariant(self);
        }
        Chunk {
            chunk_type: self.chunk_type,
            data: slice_to_vec(self.data.as_slice()),
            crc: self.crc,
        }
    }
}

impl PartialEq for Chunk {
    /// Two chunks are equal when their types and their data are; their
    /// checksums then are too.
    fn eq(&self, other: &Chunk) -> (r: bool) {
        if !(self.chunk_type == other.chunk_type) {
            return false;
        }
        if self.data.len() != other.data.len() {
            return false;
        }
        let mut i: usize = 0;
        while i < self.data.len()
            invariant
                i <= self.data@.len(),
                self.data@.len() == other.data@.len(),
                forall|j: int| 0 <= j < i ==> self.data@[j] == other.data@[j],
            decreases self.data@.len() - i,
        {
            if self.data[i] != other.data[i] {
                return false;
            }
            i += 1;
        }
        assert(self.data@ =~= other.data@);
        true
    }
}

impl vstd::std_specs::cmp::PartialEqSpecImpl for Chunk {
    open spec fn obeys_eq_spec() -> bool {
        true
    }

    open spec fn eq_spec(&self, other: &Chunk) -> bool {
        self@ == other@
    }
}

impl Eq for Chunk {

}

} // verus!
