use pngme::chunk::Chunk;
use pngme::chunk_type::ChunkType;
use pngme::error::PngError;
use pngme::png::{Png, SIGNATURE};

fn chunk_of(chunk_type: &str, data: &str) -> Chunk {
    Chunk::new(
        ChunkType::from_str(chunk_type).unwrap(),
        data.as_bytes().to_vec(),
    )
}

fn three_chunks() -> Vec<Chunk> {
    vec![
        chunk_of("FrSt", "I am the first chunk"),
        chunk_of("miDl", "I am another chunk"),
        chunk_of("LASt", "I am the last chunk"),
    ]
}

fn png_of(chunks: Vec<Chunk>) -> Png {
    let mut png = Png::new();
    for c in chunks {
        png.append_chunk(c);
    }
    png
}

fn smallest_image() -> Vec<u8> {
    let mut bytes = vec![137, 80, 78, 71, 13, 10, 26, 10];
    bytes.extend_from_slice(&[
        0, 0, 0, 13, 73, 72, 68, 82, 0, 0, 0, 1, 0, 0, 0, 1, 8, 0, 0, 0, 0, 58, 126, 155, 85,
    ]);
    bytes.extend_from_slice(&[0, 0, 0, 0, 73, 69, 78, 68, 174, 66, 96, 130]);
    bytes
}

#[test]
fn signature_is_the_png_magic() {
    assert_eq!(SIGNATURE, [137, 80, 78, 71, 13, 10, 26, 10]);
    assert_eq!(&SIGNATURE[1..4], b"PNG");
}

#[test]
fn empty_png_is_the_signature() {
    let png = Png::new();
    assert_eq!(png.chunks().len(), 0);
    assert_eq!(png.as_bytes(), SIGNATURE.to_vec());
    assert_eq!(Png::parse(&SIGNATURE), Ok(Png::new()));
}

#[test]
fn png_as_bytes_is_signature_then_chunks_in_order() {
    let png = png_of(three_chunks());
    let mut expected = SIGNATURE.to_vec();
    for c in three_chunks() {
        expected.extend(c.as_bytes());
    }
    assert_eq!(png.as_bytes(), expected);
    assert_eq!(
        png.as_bytes().len(),
        8 + (12 + 20) + (12 + 18) + (12 + 19)
    );
}

#[test]
fn parse_reads_every_chunk_in_order() {
    let png = Png::parse(&smallest_image()).unwrap();
    let chunks = png.chunks();
    assert_eq!(chunks.len(), 2);
    assert_eq!(chunks[0].tag().to_string(), "IHDR");
    assert_eq!(chunks[0].length(), 13);
    assert_eq!(chunks[0].checksum(), 981375829);
    assert_eq!(chunks[1].tag().to_string(), "IEND");
    assert_eq!(chunks[1].length(), 0);
    assert_eq!(png.as_bytes(), smallest_image());
}

#[test]
fn png_round_trip() {
    for png in [Png::new(), png_of(three_chunks()), Png::parse(&smallest_image()).unwrap()] {
        let bytes = png.as_bytes();
        let again = Png::parse(&bytes).unwrap();
        assert_eq!(again.as_bytes(), bytes);
        assert_eq!(again, png);
        assert_eq!(again.chunks(), png.chunks());
    }
}

#[test]
fn png_without_an_end_chunk_is_read() {
    let bytes = png_of(three_chunks()).as_bytes();
    let png = Png::parse(&bytes).unwrap();
    assert_eq!(png.chunks(), three_chunks().as_slice());
}

#[test]
fn altered_signature_is_refused() {
    let good = smallest_image();
    for at in 0..8 {
        let mut bad = good.clone();
        bad[at] ^= 1;
        assert_eq!(Png::parse(&bad), Err(PngError::BadSignature));
    }
    let mut bad = png_of(three_chunks()).as_bytes();
    bad[..8].copy_from_slice(&[13, 80, 78, 71, 13, 10, 26, 10]);
    assert_eq!(Png::parse(&bad), Err(PngError::BadSignature));
}

#[test]
fn altered_signature_is_named_before_broken_chunks() {
    let mut bad = smallest_image();
    bad[0] = 0;
    bad.truncate(20);
    assert_eq!(Png::parse(&bad), Err(PngError::BadSignature));
}

#[test]
fn buffer_shorter_than_the_signature_is_truncated() {
    for len in 0..8 {
        assert_eq!(
            Png::parse(&SIGNATURE[..len]),
            Err(PngError::TruncatedBuffer)
        );
    }
    assert_eq!(Png::parse(&[0u8; 7]), Err(PngError::TruncatedBuffer));
}

#[test]
fn failure_of_a_chunk_is_the_failure_of_the_file() {
    let good = png_of(three_chunks()).as_bytes();
    for len in 9..good.len() {
        if len == 8 + 32 || len == 8 + 32 + 30 {
            assert!(Png::parse(&good[..len]).is_ok());
        } else {
            assert_eq!(Png::parse(&good[..len]), Err(PngError::TruncatedBuffer));
        }
    }
    let mut bad = good.clone();
    let last = bad.len() - 1;
    bad[last] ^= 0x80;
    assert_eq!(Png::parse(&bad), Err(PngError::ChecksumMismatch));
    let mut bad = good.clone();
    bad[8 + 32 + 4] = b'0';
    assert_eq!(Png::parse(&bad), Err(PngError::InvalidTagBytes));
}

#[test]
fn appended_chunk_is_found_and_removed() {
    let mut png = Png::parse(&smallest_image()).unwrap();
    assert!(png.chunk_by_tag("ruSt").is_none());
    let chunk = Chunk::new(ChunkType::from_str("ruSt").unwrap(), b"hello".to_vec());
    png.append_chunk(chunk.clone());
    assert_eq!(png.chunks().len(), 3);
    assert_eq!(png.chunks()[2], chunk);
    assert_eq!(png.chunk_by_tag("ruSt"), Some(&chunk));
    assert_eq!(png.chunk_by_tag("ruSt").unwrap().data(), b"hello");
    assert_eq!(png.remove_chunk("ruSt"), Ok(chunk));
    assert!(png.chunk_by_tag("ruSt").is_none());
    assert_eq!(png.remove_chunk("ruSt"), Err(PngError::TagNotFound));
    assert_eq!(png.as_bytes(), smallest_image());
}

#[test]
fn chunks_of_one_type_leave_in_the_order_they_came() {
    let first = chunk_of("ruSt", "first");
    let second = chunk_of("ruSt", "second");
    let mut png = png_of(three_chunks());
    png.append_chunk(first.clone());
    png.append_chunk(second.clone());
    assert_eq!(png.chunks().len(), 5);
    assert_eq!(png.chunk_by_tag("ruSt"), Some(&first));
    assert_eq!(png.remove_chunk("ruSt"), Ok(first));
    assert_eq!(png.chunks().len(), 4);
    assert_eq!(png.chunk_by_tag("ruSt"), Some(&second));
    assert_eq!(png.chunks()[3], second);
    assert_eq!(png.remove_chunk("ruSt"), Ok(second));
    assert_eq!(png.chunks(), three_chunks().as_slice());
    assert_eq!(png.remove_chunk("ruSt"), Err(PngError::TagNotFound));
    assert_eq!(png.chunks(), three_chunks().as_slice());
}

#[test]
fn removing_from_the_middle_keeps_the_rest_in_order() {
    let mut png = png_of(three_chunks());
    let removed = png.remove_chunk("miDl").unwrap();
    assert_eq!(removed, chunk_of("miDl", "I am another chunk"));
    let left = png.chunks();
    assert_eq!(left.len(), 2);
    assert_eq!(left[0], chunk_of("FrSt", "I am the first chunk"));
    assert_eq!(left[1], chunk_of("LASt", "I am the last chunk"));
}

#[test]
fn first_of_two_equal_types_is_found_where_others_stand_between() {
    let mut png = Png::new();
    png.append_chunk(chunk_of("ruSt", "one"));
    png.append_chunk(chunk_of("miDl", "between"));
    png.append_chunk(chunk_of("ruSt", "two"));
    assert_eq!(png.chunk_by_tag("ruSt").unwrap().data(), b"one");
    assert_eq!(png.remove_chunk("ruSt").unwrap().data(), b"one");
    assert_eq!(png.chunk_by_tag("ruSt").unwrap().data(), b"two");
    assert_eq!(png.chunks()[0].data(), b"between");
    assert_eq!(png.remove_chunk("ruSt").unwrap().data(), b"two");
    assert!(png.chunk_by_tag("ruSt").is_none());
    assert_eq!(png.chunks().len(), 1);
}

#[test]
fn lookup_tells_the_case_of_letters_apart() {
    let png = png_of(three_chunks());
    assert!(png.chunk_by_tag("FrSt").is_some());
    assert!(png.chunk_by_tag("frSt").is_none());
    assert!(png.chunk_by_tag("FRST").is_none());
}

#[test]
fn text_that_is_no_chunk_type_finds_nothing() {
    let mut png = png_of(three_chunks());
    for text in ["", "FrS", "FrStt", "Fr5t", "F\u{fc}St"] {
        assert!(png.chunk_by_tag(text).is_none());
        assert_eq!(png.remove_chunk(text), Err(PngError::TagNotFound));
    }
    assert_eq!(png.chunks(), three_chunks().as_slice());
}

#[test]
fn files_compare_by_their_chunks() {
    let a = png_of(three_chunks());
    let b = png_of(three_chunks());
    assert!(a == b);
    let mut c = png_of(three_chunks());
    c.remove_chunk("LASt").unwrap();
    assert!(a != c);
    c.append_chunk(chunk_of("LASt", "I am the last chunk!"));
    assert!(a != c);
}
