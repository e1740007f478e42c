//! Whole PNG files: the signature and the chunks that follow it.
use crate::chunk;
use crate::chunk::{Chunk, ChunkView};
use crate::chunk_type::{
    is_tag, lemma_from_str_text, lemma_text_round_trip, spec_from_str, text_of, ChunkType,
};
use crate::error::PngError;
use vstd::array::array_as_slice;
use vstd::prelude::*;
use vstd::slice::slice_subrange;

verus! {

/// The eight bytes that every PNG file starts with.
pub const SIGNATURE: [u8; 8] = [137, 80, 78, 71, 13, 10, 26, 10];

/// The chunks on the wire, one after the other.
pub open spec fn chunks_as_bytes(chunks: Seq<ChunkView>) -> Seq<u8>
    decreases chunks.len(),
{
    if chunks.len() == 0 {
        Seq::empty()
    } else {
        chunks.first().as_bytes() + chunks_as_bytes(chunks.drop_first())
    }
}

/// A file with the given chunks: the signature, then the chunks in order.
pub open spec fn spec_as_bytes(chunks: Seq<ChunkView>) -> Seq<u8> {
    SIGNATURE@ + chunks_as_bytes(chunks)
}

/// The chunks `first` followed by what reading the rest gave, or the
/// failure of reading the rest.
pub open spec fn followed_by(first: Seq<ChunkView>, rest: Result<Seq<ChunkView>, PngError>)
    -> Result<Seq<ChunkView>, PngError> {
    match rest {
        Ok(more) => Ok(first + more),
        Err(e) => Err(e),
    }
}

/// What reading chunks from `bytes` until none is left gives: all of them
/// in order, or the failure of the first that cannot be read.
pub open spec fn parse_chunks(bytes: Seq<u8>) -> Result<Seq<ChunkView>, PngError>
    decreases bytes.len(),
{
    if bytes.len() == 0 {
        Ok(Seq::empty())
    } else {
        match chunk::spec_parse(bytes) {
            Err(e) => Err(e),
            Ok(c) => followed_by(seq![c], parse_chunks(bytes.skip(c.framed_len()))),
        }
    }
}

/// What reading a whole file gives.
pub open spec fn spec_parse(bytes: Seq<u8>) -> Result<Seq<ChunkView>, PngError> {
    if bytes.len() < 8 {
        Err(PngError::TruncatedBuffer)
    } else if bytes.subrange(0, 8) != SIGNATURE@ {
        Err(PngError::BadSignature)
    } else {
        parse_chunks(bytes.skip(8))
    }
}

/// True when the type of `c`, as text, is `text`.
pub open spec fn has_tag(c: ChunkView, text: Seq<char>) -> bool {
    text_of(c.tag) == text
}

/// True when `i` is the place of the first chunk whose type is `text`.
pub open spec fn is_first_match(chunks: Seq<ChunkView>, text: Seq<char>, i: int) -> bool {
    &&& 0 <= i < chunks.len()
    &&& has_tag(chunks[i], text)
    &&& forall|j: int| 0 <= j < i ==> !has_tag(#[trigger] chunks[j], text)
}

/// The place of the first chunk whose type is `text`, if there is one.
pub open spec fn first_match(chunks: Seq<ChunkView>, text: Seq<char>) -> Option<int> {
    if exists|i: int| is_first_match(chunks, text, i) {
        Some(choose|i: int| is_first_match(chunks, text, i))
    } else {
        None
    }
}

/// The chunks without the first one whose type is `text`; all of them if
/// there is none.
pub open spec fn without_first(chunks: Seq<ChunkView>, text: Seq<char>) -> Seq<ChunkView> {
    match first_match(chunks, text) {
        Some(i) => chunks.remove(i),
        None => chunks,
    }
}

/// True when each of the chunks is one that exists.
pub open spec fn all_wf(chunks: Seq<ChunkView>) -> bool {
    forall|i: int| 0 <= i < chunks.len() ==> (#[trigger] chunks[i]).wf()
}

/// The views of a sequence of chunks.
pub open spec fn views(chunks: Seq<Chunk>) -> Seq<ChunkView> {
    chunks.map_values(|c: Chunk| c@)
}

/// There is at most one first match.
pub proof fn lemma_first_match_is(chunks: Seq<ChunkView>, text: Seq<char>, i: int)
    requires
        is_first_match(chunks, text, i),
    ensures
        first_match(chunks, text) == Some(i),
{
    let k = choose|k: int| is_first_match(chunks, text, k);
    assert(is_first_match(chunks, text, k));
    if k < i {
        assert(!has_tag(chunks[k], text));
    }
    if i < k {
        assert(!has_tag(chunks[i], text));
    }
}

/// Where no chunk has the type, there is no first match.
pub proof fn lemma_first_match_none(chunks: Seq<ChunkView>, text: Seq<char>)
    requires
        forall|j: int| 0 <= j < chunks.len() ==> !has_tag(#[trigger] chunks[j], text),
    ensures
        first_match(chunks, text) is None,
{
    if exists|i: int| is_first_match(chunks, text, i) {
        let k = choose|k: int| is_first_match(chunks, text, k);
        assert(has_tag(chunks[k], text));
    }
}

/// Writing one more chunk adds its bytes at the end.
pub proof fn lemma_chunks_as_bytes_push(chunks: Seq<ChunkView>, c: ChunkView)
    ensures
        chunks_as_bytes(chunks.push(c)) == chunks_as_bytes(chunks) + c.as_bytes(),
    decreases chunks.len(),
{
    let longer = chunks.push(c);
    if chunks.len() == 0 {
        assert(longer.first() == c);
        assert(longer.drop_first().len() == 0);
        assert(chunks_as_bytes(longer.drop_first()) =~= Seq::<u8>::empty());
        assert(chunks_as_bytes(longer) =~= c.as_bytes());
        assert(chunks_as_bytes(chunks) + c.as_bytes() =~= c.as_bytes());
    } else {
        lemma_chunks_as_bytes_push(chunks.drop_first(), c);
        assert(longer.drop_first() =~= chunks.drop_first().push(c));
        assert(longer.first() == chunks.first());
        assert(chunks_as_bytes(longer) =~= chunks_as_bytes(chunks) + c.as_bytes());
    }
}

/// A chunk that has the type is the first such chunk, or comes after it.
pub proof fn lemma_match_has_first(chunks: Seq<ChunkView>, text: Seq<char>, j: int)
    requires
        0 <= j < chunks.len(),
        has_tag(chunks[j], text),
    ensures
        first_match(chunks, text) is Some,
        0 <= first_match(chunks, text)->Some_0 <= j,
        is_first_match(chunks, text, first_match(chunks, text)->Some_0),
    decreases j,
{
    if exists|k: int| 0 <= k < j && has_tag(chunks[k], text) {
        let k = choose|k: int| 0 <= k < j && has_tag(chunks[k], text);
        lemma_match_has_first(chunks, text, k);
    } else {
        assert(is_first_match(chunks, text, j));
        lemma_first_match_is(chunks, text, j);
    }
}

/// What [`first_match`] finds is the first chunk with the type, and it
/// finds nothing only where no chunk has the type.
pub proof fn lemma_first_match(chunks: Seq<ChunkView>, text: Seq<char>)
    ensures
        first_match(chunks, text) matches Some(i) ==> is_first_match(chunks, text, i),
        first_match(chunks, text) is None ==> forall|j: int|
            0 <= j < chunks.len() ==> !has_tag(#[trigger] chunks[j], text),
{
    if first_match(chunks, text) is None {
        assert forall|j: int| 0 <= j < chunks.len() implies !has_tag(
            #[trigger] chunks[j],
            text,
        ) by {
            if has_tag(chunks[j], text) {
                lemma_match_has_first(chunks, text, j);
            }
        }
    }
}

/// Chunks that are written and read again are the same chunks.
pub proof fn lemma_parse_chunks_of_written(chunks: Seq<ChunkView>)
    requires
        all_wf(chunks),
    ensures
        parse_chunks(chunks_as_bytes(chunks)) == Ok::<Seq<ChunkView>, PngError>(chunks),
    decreases chunks.len(),
{
    if chunks.len() == 0 {
        assert(chunks =~= Seq::<ChunkView>::empty());
    } else {
        let first = chunks.first();
        let rest = chunks.drop_first();
        let rest_bytes = chunks_as_bytes(rest);
        let bytes = chunks_as_bytes(chunks);
        assert(first.wf());
        assert(all_wf(rest)) by {
            assert forall|i: int| 0 <= i < rest.len() implies (#[trigger] rest[i]).wf() by {
                assert(rest[i] == chunks[i + 1]);
            }
        }
        chunk::lemma_layout(first);
        chunk::lemma_parse_as_bytes(first, rest_bytes);
        assert(bytes.skip(first.framed_len()) =~= rest_bytes);
        lemma_parse_chunks_of_written(rest);
        assert(seq![first] + rest =~= chunks);
    }
}

/// Chunks that were read from a buffer exist, and written again they give
/// the buffer.
pub proof fn lemma_written_of_parsed_chunks(bytes: Seq<u8>)
    requires
        parse_chunks(bytes) is Ok,
    ensures
        all_wf(parse_chunks(bytes)->Ok_0),
        chunks_as_bytes(parse_chunks(bytes)->Ok_0) == bytes,
    decreases bytes.len(),
{
    let chunks = parse_chunks(bytes)->Ok_0;
    if bytes.len() == 0 {
        assert(chunks_as_bytes(chunks) =~= bytes);
    } else {
        let first = chunk::spec_parse(bytes)->Ok_0;
        chunk::lemma_as_bytes_of_parsed(bytes);
        let tail = bytes.skip(first.framed_len());
        lemma_written_of_parsed_chunks(tail);
        let more = parse_chunks(tail)->Ok_0;
        assert(chunks == seq![first] + more);
        assert(chunks.first() == first);
        assert(chunks.drop_first() =~= more);
        assert forall|i: int| 0 <= i < chunks.len() implies (#[trigger] chunks[i]).wf() by {
            if i > 0 {
                assert(chunks[i] == more[i - 1]);
            }
        }
        assert(bytes.subrange(0, first.framed_len()) + tail =~= bytes);
    }
}

/// A file that is written and read again has the same chunks, so writing
/// it once more gives the same bytes.
pub proof fn lemma_parse_as_bytes(chunks: Seq<ChunkView>)
    requires
        all_wf(chunks),
    ensures
        spec_parse(spec_as_bytes(chunks)) == Ok::<Seq<ChunkView>, PngError>(chunks),
        spec_as_bytes(spec_parse(spec_as_bytes(chunks))->Ok_0) == spec_as_bytes(chunks),
{
    let bytes = spec_as_bytes(chunks);
    assert(bytes.subrange(0, 8) =~= SIGNATURE@);
    assert(bytes.skip(8) =~= chunks_as_bytes(chunks));
    lemma_parse_chunks_of_written(chunks);
}

/// A file that was read from a buffer is written as that buffer: nothing
/// is lost or reordered.
pub proof fn lemma_as_bytes_of_parsed(bytes: Seq<u8>)
    requires
        spec_parse(bytes) is Ok,
    ensures
        all_wf(spec_parse(bytes)->Ok_0),
        spec_as_bytes(spec_parse(bytes)->Ok_0) == bytes,
{
    lemma_written_of_parsed_chunks(bytes.skip(8));
    assert(bytes.subrange(0, 8) + bytes.skip(8) =~= bytes);
}

/// A buffer of eight bytes or more that does not start with the signature
/// is refused for its signature, whatever follows.
pub proof fn lemma_bad_signature(bytes: Seq<u8>)
    requires
        bytes.len() >= 8,
        bytes.subrange(0, 8) != SIGNATURE@,
    ensures
        spec_parse(bytes) == Err::<Seq<ChunkView>, PngError>(PngError::BadSignature),
{
}

/// A chunk appended to a file that has none of its type is the one that a
/// search for the type finds; removing it gives the file as it was, in
/// which the search finds nothing.
pub proof fn lemma_append_find_remove(chunks: Seq<ChunkView>, c: ChunkView, text: Seq<char>)
    requires
        has_tag(c, text),
        first_match(chunks, text) is None,
    ensures
        first_match(chunks.push(c), text) == Some(chunks.len() as int),
        chunks.push(c)[chunks.len() as int] == c,
        without_first(chunks.push(c), text) == chunks,
        first_match(without_first(chunks.push(c), text), text) is None,
{
    let longer = chunks.push(c);
    let at = chunks.len() as int;
    lemma_first_match(chunks, text);
    assert forall|j: int| 0 <= j < at implies !has_tag(#[trigger] longer[j], text) by {
        assert(longer[j] == chunks[j]);
    }
    assert(is_first_match(longer, text, at));
    lemma_first_match_is(longer, text, at);
    assert(longer.remove(at) =~= chunks);
}

/// Removing takes the chunks of one type in the order in which they stand:
/// once the first is out, the one that was next is first, and it is the
/// same chunk as before.
pub proof fn lemma_successive_removal(chunks: Seq<ChunkView>, text: Seq<char>, i: int, j: int)
    requires
        is_first_match(chunks, text, i),
        i < j < chunks.len(),
        has_tag(chunks[j], text),
        forall|k: int| i < k < j ==> !has_tag(#[trigger] chunks[k], text),
    ensures
        without_first(chunks, text) == chunks.remove(i),
        first_match(without_first(chunks, text), text) == Some(j - 1),
        without_first(chunks, text)[j - 1] == chunks[j],
{
    lemma_first_match_is(chunks, text, i);
    let rest = chunks.remove(i);
    assert forall|k: int| 0 <= k < j - 1 implies !has_tag(#[trigger] rest[k], text) by {
        if k < i {
            assert(rest[k] == chunks[k]);
        } else {
            assert(rest[k] == chunks[k + 1]);
        }
    }
    assert(rest[j - 1] == chunks[j]);
    assert(is_first_match(rest, text, j - 1));
    lemma_first_match_is(rest, text, j - 1);
}

/// Of two chunks of one type appended to a file that had none, the first
/// removal takes the one appended first and the second removal the other.
pub proof fn lemma_duplicate_tags(
    chunks: Seq<ChunkView>,
    a: ChunkView,
    b: ChunkView,
    text: Seq<char>,
)
    requires
        has_tag(a, text),
        has_tag(b, text),
        first_match(chunks, text) is None,
    ensures
        first_match(chunks.push(a).push(b), text) == Some(chunks.len() as int),
        chunks.push(a).push(b)[chunks.len() as int] == a,
        without_first(chunks.push(a).push(b), text) == chunks.push(b),
        first_match(chunks.push(b), text) == Some(chunks.len() as int),
        chunks.push(b)[chunks.len() as int] == b,
        without_first(chunks.push(b), text) == chunks,
{
    let both = chunks.push(a).push(b);
    let at = chunks.len() as int;
    lemma_first_match(chunks, text);
    assert forall|j: int| 0 <= j < at implies !has_tag(#[trigger] both[j], text) by {
        assert(both[j] == chunks[j]);
    }
    assert(is_first_match(both, text, at));
    lemma_first_match_is(both, text, at);
    assert(both.remove(at) =~= chunks.push(b));
    lemma_append_find_remove(chunks, b, text);
}

/// A type read from `text` is the type of exactly the chunks that
/// [`has_tag`] picks; text that is no type picks none.
proof fn lemma_has_tag(c: ChunkView, text: Seq<char>)
    requires
        c.wf(),
    ensures
        has_tag(c, text) <==> spec_from_str(text) == Ok::<Seq<u8>, PngError>(c.tag),
{
    if has_tag(c, text) {
        lemma_text_round_trip(c.tag);
    }
    if spec_from_str(text) == Ok::<Seq<u8>, PngError>(c.tag) {
        lemma_from_str_text(text);
    }
}

/// A PNG file: its chunks, in the order in which they stand in the file.
#[derive(Debug)]
pub struct Png {
    chunks: Vec<Chunk>,
}

impl View for Png {
    type V = Seq<ChunkView>;

    closed spec fn view(&self) -> Seq<ChunkView> {
        views(self.chunks@)
    }
}

impl Png {
    /// What holds of every file: each of its chunks is one that exists.
    #[verifier::type_invariant]
    pub open spec fn chunks_exist(self) -> bool {
        all_wf(self@)
    }

    /// A file without chunks.
    pub fn new() -> (p: Png)
        ensures
            p@ == Seq::<ChunkView>::empty(),
    {
        let chunks: Vec<Chunk> = Vec::new();
        assert(views(chunks@) =~= Seq::<ChunkView>::empty());
        Png { chunks }
    }

    /// Reads a whole file.
    ///
    /// Fails with `TruncatedBuffer` if there are fewer than eight bytes,
    /// with `BadSignature` if the first eight are not the PNG signature,
    /// and otherwise with the failure of the first chunk that cannot be
    /// read. No particular chunk has to be present.
    pub fn parse(bytes: &[u8]) -> (r: Result<Png, PngError>)
        ensures
            r matches Ok(p) ==> spec_parse(bytes@) == Ok::<Seq<ChunkView>, PngError>(p@),
            r matches Err(e) ==> spec_parse(bytes@) == Err::<Seq<ChunkView>, PngError>(e),
    {
        if bytes.len() < 8 {
            return Err(PngError::TruncatedBuffer);
        }
        let mut k: usize = 0;
        while k < 8
            invariant
                k <= 8,
                bytes@.len() >= 8,
                forall|j: int| 0 <= j < k ==> bytes@[j] == SIGNATURE@[j],
            decreases 8 - k,
        {
            if bytes[k] != SIGNATURE[k] {
                assert(bytes@.subrange(0, 8)[k as int] != SIGNATURE@[k as int]);
                return Err(PngError::BadSignature);
            }
            k += 1;
        }
        assert(bytes@.subrange(0, 8) =~= SIGNATURE@);
        let mut chunks: Vec<Chunk> = Vec::new();
        let mut pos: usize = 8;
        assert(followed_by(views(chunks@), parse_chunks(bytes@.skip(8))) == parse_chunks(
            bytes@.skip(8),
        )) by {
            assert(views(chunks@) =~= Seq::<ChunkView>::empty());
            if let Ok(more) = parse_chunks(bytes@.skip(8)) {
                assert(views(chunks@) + more =~= more);
            }
        }
        while pos < bytes.len()
            invariant
                8 <= pos <= bytes@.len(),
                bytes@.subrange(0, 8) == SIGNATURE@,
                forall|i: int| 0 <= i < chunks@.len() ==> (#[trigger] views(chunks@)[i]).wf(),
                parse_chunks(bytes@.skip(8)) == followed_by(
                    views(chunks@),
                    parse_chunks(bytes@.skip(pos as int)),
                ),
            decreases bytes@.len() - pos,
        {
            let rest = slice_subrange(bytes, pos, bytes.len());
            assert(rest@ =~= bytes@.skip(pos as int));
            match Chunk::parse(rest) {
                Err(e) => {
                    assert(parse_chunks(rest@) == Err::<Seq<ChunkView>, PngError>(e));
                    return Err(e);
                },
                Ok(c) => {
                    let taken: usize = c.data().len() + 12;
                    proof {
                        let ghost tail = parse_chunks(rest@.skip(c@.framed_len()));
                        assert(rest@.skip(c@.framed_len()) =~= bytes@.skip(pos + taken));
                        assert(views(chunks@.push(c)) =~= views(chunks@) + seq![c@]);
                        if let Ok(more) = tail {
                            assert(views(chunks@) + (seq![c@] + more) =~= views(chunks@.push(c))
                                + more);
                        }
                    }
                    chunks.push(c);
                    pos += taken;
                },
            }
        }
        assert(views(chunks@) + Seq::<ChunkView>::empty() =~= views(chunks@));
        Ok(Png { chunks })
    }

    /// Adds a chunk at the end. Chunks of the same type may already be
    /// there.
    pub fn append_chunk(&mut self, chunk: Chunk)
        ensures
            final(self)@ == old(self)@.push(chunk@),
    {
        proof {
            use_type_invariant(&*self);
            use_type_invariant(&chunk);
        }
        let mut chunks: Vec<Chunk> = Vec::new();
        std::mem::swap(&mut self.chunks, &mut chunks);
        chunks.push(chunk);
        assert(views(chunks@) =~= old(self)@.push(chunk@));
        assert forall|i: int| 0 <= i < chunks@.len() implies (#[trigger] views(chunks@)[i]).wf() by {
            if i < old(self)@.len() {
                assert(views(chunks@)[i] == old(self)@[i]);
            }
        }
        self.chunks = chunks;
    }

    /// The place of the first chunk whose type is `text`.
    fn position(&self, text: &str) -> (r: Option<usize>)
        ensures
            r matches Some(i) ==> first_match(self@, text@) == Some(i as int) && i
                < self.chunks@.len(),
            r is None ==> first_match(self@, text@) is None,
    {
        proof {
            use_type_invariant(self);
        }
        let wanted: ChunkType = match ChunkType::from_str(text) {
            Ok(t) => t,
            Err(_) => {
                proof {
                    assert forall|j: int| 0 <= j < self@.len() implies !has_tag(
                        #[trigger] self@[j],
                        text@,
                    ) by {
                        lemma_has_tag(self@[j], text@);
                    }
                    lemma_first_match_none(self@, text@);
                }
                return None;
            },
        };
        let mut i: usize = 0;
        while i < self.chunks.len()
            invariant
                i <= self.chunks@.len(),
                self.chunks_exist(),
                spec_from_str(text@) == Ok::<Seq<u8>, PngError>(wanted@),
                forall|j: int| 0 <= j < i ==> !has_tag(#[trigger] self@[j], text@),
            decreases self.chunks@.len() - i,
        {
            let tag: &ChunkType = self.chunks[i].tag();
            proof {
                lemma_has_tag(self@[i as int], text@);
            }
            if *tag == wanted {
                proof {
                    lemma_first_match_is(self@, text@, i as int);
                }
                return Some(i);
            }
            i += 1;
        }
        proof {
            lemma_first_match_none(self@, text@);
        }
        None
    }

    /// The first chunk whose type, as text, is `text`, if there is one.
    pub fn chunk_by_tag(&self, text: &str) -> (r: Option<&Chunk>)
        ensures
            r matches Some(c) ==> first_match(self@, text@) is Some && c@ == self@[first_match(
                self@,
                text@,
            )->Some_0],
            r is None ==> first_match(self@, text@) is None,
    {
        match self.position(text) {
            Some(i) => Some(&self.chunks[i]),
            None => None,
        }
    }

    /// Takes out the first chunk whose type, as text, is `text`, and
    /// returns it. Later chunks of the same type stay. Fails with
    /// `TagNotFound`, and changes nothing, if there is no such chunk.
    pub fn remove_chunk(&mut self, text: &str) -> (r: Result<Chunk, PngError>)
        ensures
            final(self)@ == without_first(old(self)@, text@),
            r matches Ok(c) ==> first_match(old(self)@, text@) is Some && c@ == old(
                self,
            )@[first_match(old(self)@, text@)->Some_0],
            r matches Err(e) ==> first_match(old(self)@, text@) is None && e
                == PngError::TagNotFound,
    {
        proof {
            use_type_invariant(&*self);
        }
        match self.position(text) {
            Some(i) => {
                let mut chunks: Vec<Chunk> = Vec::new();
                std::mem::swap(&mut self.chunks, &mut chunks);
                let c = chunks.remove(i);
                assert(views(chunks@) =~= old(self)@.remove(i as int));
                assert forall|j: int| 0 <= j < chunks@.len() implies (#[trigger] views(
                    chunks@,
                )[j]).wf() by {
                    if j < i {
                        assert(views(chunks@)[j] == old(self)@[j]);
                    } else {
                        assert(views(chunks@)[j] == old(self)@[j + 1]);
                    }
                }
                self.chunks = chunks;
                Ok(c)
            },
            None => Err(PngError::TagNotFound),
        }
    }

    /// The file as bytes: the signature, then every chunk in order.
    pub fn as_bytes(&self) -> (r: Vec<u8>)
        ensures
            r@ == spec_as_bytes(self@),
    {
        let mut out: Vec<u8> = Vec::new();
        out.extend_from_slice(array_as_slice(&SIGNATURE));
        assert(out@ =~= SIGNATURE@);
        let mut i: usize = 0;
        while i < self.chunks.len()
            invariant
                i <= self.chunks@.len(),
                out@ == SIGNATURE@ + chunks_as_bytes(self@.take(i as int)),
            decreases self.chunks@.len() - i,
        {
            let mut piece: Vec<u8> = self.chunks[i].as_bytes();
            proof {
                lemma_chunks_as_bytes_push(self@.take(i as int), self@[i as int]);
                assert(self@.take(i + 1) =~= self@.take(i as int).push(self@[i as int]));
            }
            out.append(&mut piece);
            i += 1;
        }
        assert(self@.take(i as int) =~= self@);
        out
    }

    /// The chunks, in the order in which they stand in the file.
    pub fn chunks(&self) -> (r: &[Chunk])
        ensures
            views(r@) == self@,
    {
        self.chunks.as_slice()
    }
}

impl PartialEq for Png {
    /// Two files are equal when they hold equal chunks in the same order.
    fn eq(&self, other: &Png) -> (r: bool) {
        if self.chunks.len() != other.chunks.len() {
            assert(self@.len() != other@.len());
            return false;
        }
        let mut i: usize = 0;
        while i < self.chunks.len()
            invariant
                i <= self.chunks@.len(),
                self.chunks@.len() == other.chunks@.len(),
                forall|j: int| 0 <= j < i ==> self@[j] == other@[j],
            decreases self.chunks@.len() - i,
        {
            if !(self.chunks[i] == other.chunks[i]) {
                assert(self@[i as int] != other@[i as int]);
                return false;
            }
            i += 1;
        }
        assert(self@ =~= other@);
        true
    }
}

impl vstd::std_specs::cmp::PartialEqSpecImpl for Png {
    open spec fn obeys_eq_spec() -> bool {
        true
    }

    open spec fn eq_spec(&self, other: &Png) -> bool {
        self@ == other@
    }
}

impl Eq for Png {

}

} // verus!
