//! The four commands, and what each of them makes of the bytes of a file.
//!
//! Nothing here touches a file: a command is handed the bytes that were
//! read, and says what is to be written or shown.
use crate::chunk::{Chunk, ChunkView};
use crate::chunk_type::{lemma_from_str_text, spec_from_str, text_of, ChunkType};
use crate::error::PngError;
use crate::png;
use crate::png::{first_match, without_first, Png};
use vstd::prelude::*;
use vstd::string::StringSliceAdditionalSpecFns;
use vstd::utf8::{decode_utf8, encode_utf8, valid_utf8};

verus! {

/// A command with its arguments.
#[derive(Debug)]
pub enum Args {
    /// Hide a message in a file.
    Encode(EncodeArgs),
    /// Show the message hidden in a file.
    Decode(DecodeArgs),
    /// Take a hidden message out of a file.
    Remove(RemoveArgs),
    /// List the chunks of a file.
    Print(PrintArgs),
}

/// The arguments of `encode`.
#[derive(Debug)]
pub struct EncodeArgs {
    /// The file to read.
    pub filepath: String,
    /// The type of the chunk that will hold the message.
    pub chunk_type: String,
    /// The message.
    pub message: String,
    /// The file to write, where it is not the file that was read.
    pub output_filepath: Option<String>,
}

/// The arguments of `decode`.
#[derive(Debug)]
pub struct DecodeArgs {
    /// The file to read.
    pub filepath: String,
    /// The type of the chunk that holds the message.
    pub chunk_type: String,
}

/// The arguments of `remove`.
#[derive(Debug)]
pub struct RemoveArgs {
    /// The file to read and to write.
    pub filepath: String,
    /// The type of the chunk to take out.
    pub chunk_type: String,
}

/// The arguments of `print`.
#[derive(Debug)]
pub struct PrintArgs {
    /// The file to read.
    pub filepath: String,
}

/// A file to be written: where, and what.
#[derive(Debug)]
pub struct FileContents {
    /// The file to write.
    pub filepath: String,
    /// What the file is to hold.
    pub bytes: Vec<u8>,
}

/// The file that `encode` writes for a file `png_bin`, a chunk type given
/// as text and a message given as bytes: the file as it was, followed by
/// one more chunk of that type with the message as its data.
pub open spec fn spec_encode(png_bin: Seq<u8>, tag_text: Seq<char>, message: Seq<u8>) -> Result<
    Seq<u8>,
    PngError,
> {
    match png::spec_parse(png_bin) {
        Err(e) => Err(e),
        Ok(_) => match spec_from_str(tag_text) {
            Err(e) => Err(e),
            Ok(tag) => Ok(png_bin + (ChunkView { tag, data: message }).as_bytes()),
        },
    }
}

/// The text that `decode` shows for a file `png_bin` and a chunk type
/// given as text: the data of the first chunk of that type, read as UTF-8.
pub open spec fn spec_decode(png_bin: Seq<u8>, tag_text: Seq<char>) -> Result<Seq<char>, PngError> {
    match png::spec_parse(png_bin) {
        Err(e) => Err(e),
        Ok(chunks) => match first_match(chunks, tag_text) {
            None => Err(PngError::TagNotFound),
            Some(i) => if valid_utf8(chunks[i].data) {
                Ok(decode_utf8(chunks[i].data))
            } else {
                Err(PngError::InvalidUtf8)
            },
        },
    }
}

/// The file that `remove` writes for a file `png_bin` and a chunk type
/// given as text: the file without its first chunk of that type.
pub open spec fn spec_remove(png_bin: Seq<u8>, tag_text: Seq<char>) -> Result<Seq<u8>, PngError> {
    match png::spec_parse(png_bin) {
        Err(e) => Err(e),
        Ok(chunks) => match first_match(chunks, tag_text) {
            None => Err(PngError::TagNotFound),
            Some(_) => Ok(png::spec_as_bytes(without_first(chunks, tag_text))),
        },
    }
}

/// The lines that `print` shows for a file `png_bin`: the type of each
/// chunk, in order.
pub open spec fn spec_print(png_bin: Seq<u8>) -> Result<Seq<Seq<char>>, PngError> {
    match png::spec_parse(png_bin) {
        Err(e) => Err(e),
        Ok(chunks) => Ok(chunks.map_values(|c: ChunkView| text_of(c.tag))),
    }
}

/// The file that `encode` writes is read as the chunks of the file it was
/// given, followed by the new chunk.
pub proof fn lemma_encode_adds_last(png_bin: Seq<u8>, tag_text: Seq<char>, message: Seq<u8>)
    requires
        message.len() <= u32::MAX,
        spec_encode(png_bin, tag_text, message) is Ok,
    ensures
        png::spec_parse(png_bin) is Ok,
        spec_from_str(tag_text) is Ok,
        png::spec_parse(spec_encode(png_bin, tag_text, message)->Ok_0) == Ok::<
            Seq<ChunkView>,
            PngError,
        >(
            png::spec_parse(png_bin)->Ok_0.push(
                ChunkView { tag: spec_from_str(tag_text)->Ok_0, data: message },
            ),
        ),
{
    let chunks = png::spec_parse(png_bin)->Ok_0;
    let added = ChunkView { tag: spec_from_str(tag_text)->Ok_0, data: message };
    lemma_from_str_text(tag_text);
    png::lemma_as_bytes_of_parsed(png_bin);
    png::lemma_chunks_as_bytes_push(chunks, added);
    assert((png::SIGNATURE@ + png::chunks_as_bytes(chunks)) + added.as_bytes() =~= png::SIGNATURE@
        + (png::chunks_as_bytes(chunks) + added.as_bytes()));
    assert(png::all_wf(chunks.push(added))) by {
        assert forall|i: int| 0 <= i < chunks.push(added).len() implies (#[trigger] chunks.push(
            added,
        )[i]).wf() by {
            if i < chunks.len() {
                assert(chunks.push(added)[i] == chunks[i]);
            }
        }
    }
    png::lemma_parse_as_bytes(chunks.push(added));
}

/// In a file that had no chunk of the type, `decode` shows the message
/// that `encode` hid, and `remove` gives the file back as it was.
pub proof fn lemma_encode_decode_remove(png_bin: Seq<u8>, tag_text: Seq<char>, message: Seq<char>)
    requires
        encode_utf8(message).len() <= u32::MAX,
        spec_encode(png_bin, tag_text, encode_utf8(message)) is Ok,
        first_match(png::spec_parse(png_bin)->Ok_0, tag_text) is None,
    ensures
        spec_decode(spec_encode(png_bin, tag_text, encode_utf8(message))->Ok_0, tag_text) == Ok::<
            Seq<char>,
            PngError,
        >(message),
        spec_remove(spec_encode(png_bin, tag_text, encode_utf8(message))->Ok_0, tag_text) == Ok::<
            Seq<u8>,
            PngError,
        >(png_bin),
{
    let chunks = png::spec_parse(png_bin)->Ok_0;
    let data = encode_utf8(message);
    let added = ChunkView { tag: spec_from_str(tag_text)->Ok_0, data };
    lemma_encode_adds_last(png_bin, tag_text, data);
    lemma_from_str_text(tag_text);
    png::lemma_append_find_remove(chunks, added, tag_text);
    vstd::utf8::encode_utf8_valid_utf8(message);
    vstd::utf8::encode_utf8_decode_utf8(message);
    png::lemma_as_bytes_of_parsed(png_bin);
}

impl EncodeArgs {
    /// The file that `encode` writes: the output file if one was named,
    /// else the file that was read.
    pub open spec fn destination(self) -> Seq<char> {
        match self.output_filepath {
            Some(p) => p@,
            None => self.filepath@,
        }
    }

    /// Adds a chunk with the message to the file whose bytes are
    /// `png_bin`, and says what is to be written where.
    ///
    /// Fails as reading the file fails, and then as reading the chunk type
    /// fails. The message, as UTF-8, must fit the 32-bit length field of a
    /// chunk.
    pub fn handle_encode(self, png_bin: &[u8]) -> (r: Result<FileContents, PngError>)
        requires
            encode_utf8(self.message@).len() <= u32::MAX,
        ensures
            r matches Ok(w) ==> spec_encode(
                png_bin@,
                self.chunk_type@,
                encode_utf8(self.message@),
            ) == Ok::<Seq<u8>, PngError>(w.bytes@) && w.filepath@ == self.destination(),
            r matches Err(e) ==> spec_encode(
                png_bin@,
                self.chunk_type@,
                encode_utf8(self.message@),
            ) == Err::<Seq<u8>, PngError>(e),
    {
        let mut file: Png = match Png::parse(png_bin) {
            Ok(p) => p,
            Err(e) => {
                return Err(e);
            },
        };
        let chunk_type: ChunkType = match ChunkType::from_str(self.chunk_type.as_str()) {
            Ok(t) => t,
            Err(e) => {
                return Err(e);
            },
        };
        let new_chunk = Chunk::new(chunk_type, self.message.as_str().as_bytes_vec());
        proof {
            png::lemma_as_bytes_of_parsed(png_bin@);
            png::lemma_chunks_as_bytes_push(file@, new_chunk@);
            assert((png::SIGNATURE@ + png::chunks_as_bytes(file@)) + new_chunk@.as_bytes()
                =~= png::SIGNATURE@ + (png::chunks_as_bytes(file@) + new_chunk@.as_bytes()));
        }
        file.append_chunk(new_chunk);
        let bytes: Vec<u8> = file.as_bytes();
        let filepath: String = match self.output_filepath {
            Some(output_file) => output_file,
            None => self.filepath,
        };
        Ok(FileContents { filepath, bytes })
    }
}

impl DecodeArgs {
    /// Finds the first chunk of the given type in the file whose bytes are
    /// `png_bin`, and returns its data as text.
    ///
    /// Fails as reading the file fails, with `TagNotFound` if the file has
    /// no chunk of that type, and with `InvalidUtf8` if the data of the
    /// chunk is not text.
    pub fn handle_decode(self, png_bin: &[u8]) -> (r: Result<String, PngError>)
        ensures
            r matches Ok(s) ==> spec_decode(png_bin@, self.chunk_type@) == Ok::<
                Seq<char>,
                PngError,
            >(s@),
            r matches Err(e) ==> spec_decode(png_bin@, self.chunk_type@) == Err::<
                Seq<char>,
                PngError,
            >(e),
    {
        let file: Png = match Png::parse(png_bin) {
            Ok(p) => p,
            Err(e) => {
                return Err(e);
            },
        };
        match file.chunk_by_tag(self.chunk_type.as_str()) {
            None => Err(PngError::TagNotFound),
            Some(c) => c.data_as_text(),
        }
    }
}

impl RemoveArgs {
    /// Takes the first chunk of the given type out of the file whose bytes
    /// are `png_bin`, and says what is to be written back.
    ///
    /// Fails as reading the file fails, and with `TagNotFound` if the file
    /// has no chunk of that type.
    pub fn handle_remove(self, png_bin: &[u8]) -> (r: Result<FileContents, PngError>)
        ensures
            r matches Ok(w) ==> spec_remove(png_bin@, self.chunk_type@) == Ok::<Seq<u8>, PngError>(
                w.bytes@,
            ) && w.filepath@ == self.filepath@,
            r matches Err(e) ==> spec_remove(png_bin@, self.chunk_type@) == Err::<
                Seq<u8>,
                PngError,
            >(e),
    {
        let mut file: Png = match Png::parse(png_bin) {
            Ok(p) => p,
            Err(e) => {
                return Err(e);
            },
        };
        match file.remove_chunk(self.chunk_type.as_str()) {
            Err(e) => Err(e),
            Ok(_) => Ok(FileContents { filepath: self.filepath, bytes: file.as_bytes() }),
        }
    }
}

impl PrintArgs {
    /// Lists the types of the chunks of the file whose bytes are
    /// `png_bin`, in order. Fails as reading the file fails.
    pub fn handle_print(self, png_bin: &[u8]) -> (r: Result<Vec<String>, PngError>)
        ensures
            r matches Ok(lines) ==> spec_print(png_bin@) == Ok::<Seq<Seq<char>>, PngError>(
                lines@.map_values(|s: String| s@),
            ),
            r matches Err(e) ==> spec_print(png_bin@) == Err::<Seq<Seq<char>>, PngError>(e),
    {
        let file: Png = match Png::parse(png_bin) {
            Ok(p) => p,
            Err(e) => {
                return Err(e);
            },
        };
        let chunks: &[Chunk] = file.chunks();
        let mut lines: Vec<String> = Vec::new();
        let mut i: usize = 0;
        while i < chunks.len()
            invariant
                i <= chunks@.len(),
                png::views(chunks@) == file@,
                lines@.len() == i,
                forall|j: int| 0 <= j < i ==> (#[trigger] lines@[j])@ == text_of(file@[j].tag),
            decreases chunks@.len() - i,
        {
            let line: String = chunks[i].tag().to_string();
            assert(png::views(chunks@)[i as int] == chunks@[i as int]@);
            lines.push(line);
            i += 1;
        }
        assert(lines@.map_values(|s: String| s@) =~= file@.map_values(
            |c: ChunkView| text_of(c.tag),
        ));
        Ok(lines)
    }
}

} // verus!
