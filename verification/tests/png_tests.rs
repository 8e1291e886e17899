use png_message::PngError;
use png_message::chunk::Chunk;
use png_message::chunk_type::ChunkType;
use png_message::png::Png;

const SIGNATURE: [u8; 8] = [0x89, 0x50, 0x4E, 0x47, 0x0D, 0x0A, 0x1A, 0x0A];

fn message_chunk_bytes() -> Vec<u8> {
    let data_length: u32 = 42;
    let chunk_type = "RuSt".as_bytes();
    let message_bytes = "This is where your secret message will be!".as_bytes();
    let crc: u32 = 2882656334;

    data_length
        .to_be_bytes()
        .iter()
        .chain(chunk_type.iter())
        .chain(message_bytes.iter())
        .chain(crc.to_be_bytes().iter())
        .copied()
        .collect()
}

fn one_chunk_file() -> Vec<u8> {
    let mut buffer: Vec<u8> = SIGNATURE.to_vec();
    buffer.extend(message_chunk_bytes());
    buffer
}

#[test]
fn test_png_end_to_end() {
    let buffer = one_chunk_file();
    let png = Png::parse(buffer.as_ref()).unwrap();
    assert_eq!(png.chunks().len(), 1);
    let found = png.chunk_by_type("RuSt").unwrap();
    assert_eq!(
        found.data_as_string().unwrap(),
        "This is where your secret message will be!"
    );
    assert_eq!(found.crc(), 2882656334);
}

#[test]
fn test_png_serialize_is_parse_inverse() {
    let buffer = one_chunk_file();
    let png = Png::parse(buffer.as_ref()).unwrap();
    assert_eq!(png.as_bytes(), buffer);

    let reparsed = Png::parse(png.as_bytes().as_ref()).unwrap();
    assert_eq!(reparsed.chunks().len(), png.chunks().len());
    for (a, b) in reparsed.chunks().iter().zip(png.chunks().iter()) {
        assert_eq!(a.chunk_type(), b.chunk_type());
        assert_eq!(a.data(), b.data());
        assert_eq!(a.crc(), b.crc());
    }
}

#[test]
fn test_png_append_and_remove_first_chunk() {
    let mut png = Png::parse(&SIGNATURE).unwrap();
    assert_eq!(png.chunks().len(), 0);

    let chunk_type = ChunkType::from_text("TeSt").unwrap();
    let chunk = Chunk::new(chunk_type, b"hidden".to_vec());
    let expected_crc = chunk.crc();
    png.append_chunk(chunk);
    assert_eq!(png.chunks().len(), 1);

    let removed = png.remove_first_chunk("TeSt").unwrap();
    assert_eq!(removed.crc(), expected_crc);
    assert_eq!(removed.data_as_string().unwrap(), "hidden");
    assert_eq!(png.chunks().len(), 0);

    assert_eq!(
        png.remove_first_chunk("TeSt").unwrap_err(),
        PngError::ChunkNotFound
    );
}

#[test]
fn test_png_remove_takes_first_of_duplicates() {
    let mut png = Png::parse(&SIGNATURE).unwrap();
    let chunk_type = ChunkType::from_text("DuPl").unwrap();
    png.append_chunk(Chunk::new(chunk_type, b"first".to_vec()));
    let chunk_type = ChunkType::from_text("DuPl").unwrap();
    png.append_chunk(Chunk::new(chunk_type, b"second".to_vec()));

    let removed = png.remove_first_chunk("DuPl").unwrap();
    assert_eq!(removed.data_as_string().unwrap(), "first");
    assert_eq!(png.chunks().len(), 1);
    let left = png.chunk_by_type("DuPl").unwrap();
    assert_eq!(left.data_as_string().unwrap(), "second");
}

#[test]
fn test_png_chunk_by_type_miss_is_none() {
    let buffer = one_chunk_file();
    let png = Png::parse(buffer.as_ref()).unwrap();
    assert!(png.chunk_by_type("TeSt").is_none());
}

#[test]
fn test_png_invalid_signature() {
    assert_eq!(Png::parse(b"not a png").unwrap_err(), PngError::InvalidSignature);
    assert_eq!(Png::parse(&[]).unwrap_err(), PngError::InvalidSignature);
    let mut buffer = one_chunk_file();
    buffer[0] = 0x88;
    assert_eq!(Png::parse(buffer.as_ref()).unwrap_err(), PngError::InvalidSignature);
}

#[test]
fn test_png_trailing_bytes_too_short_for_a_chunk() {
    let mut buffer = one_chunk_file();
    buffer.extend([0u8, 0, 0]);
    assert_eq!(Png::parse(buffer.as_ref()).unwrap_err(), PngError::TruncatedInput);
}

#[test]
fn test_png_chunk_error_propagates() {
    let mut buffer = one_chunk_file();
    let last = buffer.len() - 1;
    buffer[last] ^= 0x01;
    assert_eq!(Png::parse(buffer.as_ref()).unwrap_err(), PngError::CrcMismatch);
}

#[test]
fn test_png_new_from_chunks() {
    let first = ChunkType::from_text("FrSt").unwrap();
    let second = ChunkType::from_text("ScNd").unwrap();
    let chunks = vec![
        Chunk::new(first, b"one".to_vec()),
        Chunk::new(second, b"two".to_vec()),
    ];
    let png = Png::new(chunks);
    assert_eq!(png.chunks().len(), 2);
    assert_eq!(png.chunk_by_type("ScNd").unwrap().data(), b"two");

    let reparsed = Png::parse(png.as_bytes().as_ref()).unwrap();
    assert_eq!(reparsed.chunks().len(), 2);
    assert_eq!(
        reparsed.chunks()[0].chunk_type().to_text(),
        String::from("FrSt")
    );
    assert_eq!(
        reparsed.chunks()[1].chunk_type().to_text(),
        String::from("ScNd")
    );
}
