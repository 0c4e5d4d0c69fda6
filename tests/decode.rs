use ani::ani::Ani;
use ani::chunks::{parse_anih_chunk, parse_info_chunk, parse_rate_chunk, parse_seq_chunk, validate_signature};
use ani::error::DecodeError;
use ani::frame::{IconDir, ImageType};
use ani::header::Flag;
use ani::icon::decode_frame;
use ani::parser::Parser;

fn le(v: u32) -> [u8; 4] {
    v.to_le_bytes()
}

fn chunk(tag: &[u8; 4], body: &[u8]) -> Vec<u8> {
    let mut out = tag.to_vec();
    out.extend_from_slice(&le(body.len() as u32));
    out.extend_from_slice(body);
    out
}

/// A cursor container with one image of `data`, its hotspot at (5, 7).
fn icon_payload(data: &[u8]) -> Vec<u8> {
    let mut out = vec![0, 0, 2, 0, 1, 0];
    out.extend_from_slice(&[32, 32, 0, 0, 5, 0, 7, 0]);
    out.extend_from_slice(&le(data.len() as u32));
    out.extend_from_slice(&le(22));
    out.extend_from_slice(data);
    out
}

fn header_record(frames: u32, steps: u32, rate: u32, flags: u32) -> Vec<u8> {
    let mut out = Vec::new();
    for v in [36, frames, steps, 0, 0, 0, 0, rate, flags] {
        out.extend_from_slice(&le(v));
    }
    out
}

fn u32_table(values: &[u32]) -> Vec<u8> {
    values.iter().flat_map(|v| le(*v)).collect()
}

/// A file in grammar order, with two frames, rates and a sequence.
fn sample_body() -> Vec<u8> {
    let mut body = chunk(b"anih", &header_record(2, 3, 6, 3));
    body.extend(chunk(b"rate", &u32_table(&[10, 20, 30])));
    body.extend(chunk(b"seq ", &u32_table(&[0, 1, 0])));
    let mut frames = b"fram".to_vec();
    frames.extend(chunk(b"icon", &icon_payload(&[1, 2, 3, 4])));
    frames.extend(chunk(b"icon", &icon_payload(&[9, 8])));
    body.extend(chunk(b"LIST", &frames));
    body
}

fn file(body: &[u8]) -> Vec<u8> {
    let mut out = b"RIFF".to_vec();
    out.extend_from_slice(&le(body.len() as u32 + 4));
    out.extend_from_slice(b"ACON");
    out.extend_from_slice(body);
    out
}

#[test]
fn signature() {
    let data = b"RIFF\x04\0\0\0ACON";
    let mut parser = Parser::new(data);
    validate_signature(&mut parser).expect("expected hardcoded bytes to be valid");
}

#[test]
fn signature_leaves_no_payload() {
    let data = b"RIFF\x04\0\0\0ACON";
    let mut parser = Parser::new(data);
    validate_signature(&mut parser).expect("expected hardcoded bytes to be valid");
    assert_eq!(parser.bytes_remaining(), 0);
}

#[test]
fn metadata_chunk() {
    let data = b"INAM\x1E\0\0\0Default - Hoshimachi Suisei v1IART\x09\0\0\0Hoshiyomi";
    let mut parser = Parser::new(data);
    let metadata = parse_info_chunk(&mut parser).expect("expected hardcoded bytes to be valid");

    assert_eq!(metadata.title(), Some("Default - Hoshimachi Suisei v1"));
    assert_eq!(metadata.author(), Some("Hoshiyomi"));
}

#[test]
fn header_chunk() {
    let data = [
        36, 0, 0, 0, // Chunk size
        36, 0, 0, 0, // Header size
        9, 0, 0, 0, // Frames
        21, 0, 0, 0, // Steps
        0, 0, 0, 0, // Reserved
        0, 0, 0, 0, // Reserved
        0, 0, 0, 0, // Reserved
        0, 0, 0, 0, // Reserved
        6, 0, 0, 0, // JIF rate
        3, 0, 0, 0, // Flags
    ];
    let mut parser = Parser::new(&data);
    let header = parse_anih_chunk(&mut parser).expect("expected hardcoded bytes to be valid");

    assert_eq!(header.size(), 36);
    assert_eq!(header.frames(), 9);
    assert_eq!(header.steps(), 21);
    assert_eq!(header.jif_rate(), 6);
    assert!(header.flags().contains(Flag::ICON));
    assert!(header.flags().contains(Flag::SEQUENCE));
}

#[test]
fn metadata_lossy_text() {
    let data = b"INAM\x02\0\0\0f\xffIART\0\0\0\0";
    let mut parser = Parser::new(data);
    let metadata = parse_info_chunk(&mut parser).unwrap();
    assert_eq!(metadata.title(), Some("f\u{fffd}"));
    assert_eq!(metadata.author(), Some(""));
}

#[test]
fn metadata_absent_fields() {
    let data = b"anih";
    let mut parser = Parser::new(data);
    let metadata = parse_info_chunk(&mut parser).unwrap();
    assert_eq!(metadata.title(), None);
    assert_eq!(metadata.author(), None);
    assert_eq!(parser.bytes_remaining(), 4);
}

#[test]
fn flags_without_sequence() {
    let mut data = le(36).to_vec();
    data.extend(header_record(1, 1, 1, 1));
    let header = parse_anih_chunk(&mut Parser::new(&data)).unwrap();
    assert!(header.flags().contains(Flag::ICON));
    assert!(!header.flags().contains(Flag::SEQUENCE));
}

#[test]
fn expect_identifier_rolls_back() {
    let data = b"anih\x24\0\0\0";
    let mut parser = Parser::new(data);
    let err = parser.expect_identifier(*b"LIST").unwrap_err();
    assert!(matches!(
        err,
        DecodeError::UnexpectedIdentifier { expected, actual } if &expected == b"LIST" && &actual == b"anih"
    ));
    assert_eq!(parser.bytes_remaining(), 8);
    assert_eq!(parser.position(), 0);
    parser.expect_identifier(*b"anih").unwrap();
    assert_eq!(parser.read_size().unwrap(), 36);
}

#[test]
fn read_and_peek() {
    let data = [1, 0, 0, 0, 7, 8];
    let mut parser = Parser::new(&data);
    assert_eq!(parser.peek_size().unwrap(), 1);
    assert_eq!(parser.bytes_remaining(), 6);
    assert_eq!(parser.peek_bytes(2).unwrap(), vec![1, 0]);
    assert_eq!(parser.read_size().unwrap(), 1);
    assert_eq!(parser.read_bytes(2).unwrap(), vec![7, 8]);
    assert!(matches!(parser.read_bytes(1), Err(DecodeError::NotEnoughBytes { needed: 1 })));
    assert!(matches!(parser.read_size(), Err(DecodeError::NotEnoughBytes { needed: 4 })));
}

#[test]
fn short_read_does_not_advance() {
    let data = [1, 2, 3];
    let mut parser = Parser::new(&data);
    assert!(matches!(parser.read_bytes(5), Err(DecodeError::NotEnoughBytes { needed: 2 })));
    assert_eq!(parser.bytes_remaining(), 3);
    assert!(matches!(parser.peek_size(), Err(DecodeError::NotEnoughBytes { needed: 1 })));
}

#[test]
fn signature_size_mismatch() {
    let data = b"RIFF\x10\0\0\0ACON";
    let err = validate_signature(&mut Parser::new(data)).unwrap_err();
    assert!(matches!(err, DecodeError::SizeMismatch { expected: 16, actual: 4 }));
}

#[test]
fn signature_wrong_form() {
    let data = b"RIFF\x04\0\0\0WAVE";
    let err = validate_signature(&mut Parser::new(data)).unwrap_err();
    assert!(matches!(err, DecodeError::UnexpectedIdentifier { expected, actual } if &expected == b"ACON" && &actual == b"WAVE"));
}

#[test]
fn rate_table_values() {
    let mut data = le(8).to_vec();
    data.extend_from_slice(&[1, 0, 0, 0, 0, 1, 0, 0]);
    let rates = parse_rate_chunk(&mut Parser::new(&data)).unwrap();
    assert_eq!(rates, vec![1, 256]);
}

#[test]
fn misaligned_tables() {
    let mut data = le(6).to_vec();
    data.extend_from_slice(&[0; 6]);
    assert!(matches!(parse_rate_chunk(&mut Parser::new(&data)), Err(DecodeError::InvalidAlignmentU32)));
    assert!(matches!(parse_seq_chunk(&mut Parser::new(&data)), Err(DecodeError::InvalidAlignmentU32)));
}

#[test]
fn header_size_other_than_36() {
    let mut data = le(35).to_vec();
    data.extend(header_record(1, 1, 1, 0));
    let err = parse_anih_chunk(&mut Parser::new(&data)).unwrap_err();
    assert!(matches!(err, DecodeError::InvalidHeaderSize { actual: 35 }));
}

#[test]
fn decode_icon_container() {
    let frame = decode_frame(&icon_payload(&[1, 2, 3, 4])).unwrap();
    assert_eq!(frame.header().image_type(), 2);
    assert_eq!(frame.header().image_count(), 1);
    let image = &frame.images()[0];
    assert_eq!(image.data(), &[1, 2, 3, 4]);
    assert_eq!(image.header().width(), 32);
    assert_eq!(image.header().hotspot_x(), 5);
    assert_eq!(image.header().hotspot_y(), 7);
    assert_eq!(image.header().data_size(), 4);
    assert_eq!(image.header().data_offset(), 22);
}

#[test]
fn decode_icon_rejects_bad_container() {
    let mut payload = icon_payload(&[1, 2, 3, 4]);
    payload[2] = 3;
    assert!(matches!(decode_frame(&payload), Err(DecodeError::InvalidIcon)));
    let short = icon_payload(&[1, 2, 3, 4]);
    assert!(matches!(decode_frame(&short[..24]), Err(DecodeError::InvalidIcon)));
}

#[test]
fn frame_to_bytes() {
    let payload = icon_payload(&[1, 2, 3, 4]);
    let frame = decode_frame(&payload).unwrap();
    assert_eq!(frame.to_bytes(), payload);
}

#[test]
fn zero_width_means_256() {
    let mut payload = icon_payload(&[1]);
    payload[6] = 0;
    let frame = decode_frame(&payload).unwrap();
    assert_eq!(frame.images()[0].header().width(), 256);
    assert_eq!(frame.images()[0].header().height(), 32);
}

#[test]
fn icon_dir_new() {
    let dir = IconDir::new(ImageType::Ico, 3);
    assert_eq!(dir.image_type(), 1);
    assert_eq!(dir.image_count(), 3);
    assert!(ImageType::try_from(2u16).is_ok());
    assert!(ImageType::try_from(0u16).is_err());
}

#[test]
fn strict_decoding() {
    let ani = Ani::from_bytes_strict(&file(&sample_body())).unwrap();
    assert!(ani.metadata().is_none());
    assert_eq!(ani.header().frames(), 2);
    assert_eq!(ani.header().steps(), 3);
    assert_eq!(ani.rates(), Some(&[10, 20, 30][..]));
    assert_eq!(ani.sequence(), Some(&[0, 1, 0][..]));
    assert_eq!(ani.frames().len(), 2);
    assert_eq!(ani.frames()[1].images()[0].data(), &[9, 8]);
}

#[test]
fn strict_and_lenient_agree() {
    let data = file(&sample_body());
    let strict = Ani::from_bytes_strict(&data).unwrap();
    let lenient = Ani::from_bytes(&data).unwrap();
    assert!(lenient.metadata().is_none());
    assert_eq!(strict.header().frames(), lenient.header().frames());
    assert_eq!(strict.header().jif_rate(), lenient.header().jif_rate());
    assert_eq!(strict.rates(), lenient.rates());
    assert_eq!(strict.sequence(), lenient.sequence());
    assert_eq!(strict.frames().len(), lenient.frames().len());
    for (a, b) in strict.frames().iter().zip(lenient.frames()) {
        assert_eq!(a.to_bytes(), b.to_bytes());
    }
}

#[test]
fn lenient_reordered_chunks() {
    let mut body = chunk(b"seq ", &u32_table(&[0]));
    let mut frames = b"fram".to_vec();
    frames.extend(chunk(b"icon", &icon_payload(&[5])));
    body.extend(chunk(b"LIST", &frames));
    let mut info = b"info".to_vec();
    info.extend(chunk(b"INAM", b"Arrow"));
    info.extend(chunk(b"IART", b"Someone"));
    body.extend(chunk(b"LIST", &info));
    body.extend(chunk(b"anih", &header_record(1, 1, 4, 1)));
    body.push(0);
    let ani = Ani::from_bytes(&file(&body)).unwrap();
    assert_eq!(ani.metadata().unwrap().title(), Some("Arrow"));
    assert_eq!(ani.header().jif_rate(), 4);
    assert_eq!(ani.rates(), None);
    assert_eq!(ani.sequence(), Some(&[0][..]));
    assert_eq!(ani.frames().len(), 1);
    assert!(matches!(Ani::from_bytes_strict(&file(&body)), Err(DecodeError::UnexpectedIdentifier { .. })));
}

#[test]
fn lenient_missing_header() {
    let mut frames = b"fram".to_vec();
    frames.extend(chunk(b"icon", &icon_payload(&[5])));
    let body = chunk(b"LIST", &frames);
    let err = Ani::from_bytes(&file(&body)).err().unwrap();
    assert!(matches!(err, DecodeError::MissingChunk { expected } if &expected == b"anih"));
}

#[test]
fn lenient_missing_frames() {
    let body = chunk(b"anih", &header_record(1, 1, 4, 1));
    let err = Ani::from_bytes(&file(&body)).err().unwrap();
    assert!(matches!(err, DecodeError::MissingChunk { expected } if &expected == b"fram"));
}

#[test]
fn lenient_unknown_identifier() {
    let mut body = chunk(b"anih", &header_record(1, 1, 4, 1));
    body.extend(chunk(b"junk", &[1, 2]));
    let err = Ani::from_bytes(&file(&body)).err().unwrap();
    assert!(matches!(err, DecodeError::UnknownIdentifier { actual } if &actual == b"junk"));
}

#[test]
fn lenient_unknown_list_kind() {
    let body = chunk(b"LIST", b"INFOxxxx");
    let err = Ani::from_bytes(&file(&body)).err().unwrap();
    assert!(matches!(err, DecodeError::UnknownIdentifier { actual } if &actual == b"INFO"));
}

#[test]
fn strict_missing_header() {
    let body = chunk(b"rate", &u32_table(&[1]));
    let err = Ani::from_bytes_strict(&file(&body)).err().unwrap();
    assert!(matches!(err, DecodeError::UnexpectedIdentifier { expected, actual } if &expected == b"anih" && &actual == b"rate"));
}

#[test]
fn strict_bad_icon() {
    let mut body = chunk(b"anih", &header_record(1, 1, 4, 1));
    let mut frames = b"fram".to_vec();
    frames.extend(chunk(b"icon", &[1, 2, 3]));
    body.extend(chunk(b"LIST", &frames));
    assert!(matches!(Ani::from_bytes_strict(&file(&body)), Err(DecodeError::InvalidIcon)));
    assert!(matches!(Ani::from_bytes(&file(&body)), Err(DecodeError::InvalidIcon)));
}

#[test]
fn strict_truncations() {
    let data = {
        let body = sample_body();
        let mut out = b"RIFF".to_vec();
        out.extend_from_slice(&le(4));
        out.extend_from_slice(b"ACON");
        out.extend_from_slice(&body);
        out
    };
    // Cut in the middle of the header's size field: two bytes are missing.
    let cut = 12 + 4 + 2;
    assert!(matches!(Ani::from_bytes_strict(&data[..cut]), Err(DecodeError::NotEnoughBytes { needed: 2 })));
    // Cut inside the 36-byte header record.
    let cut = 12 + 8 + 30;
    assert!(matches!(Ani::from_bytes_strict(&data[..cut]), Err(DecodeError::NotEnoughBytes { needed: 6 })));
    // Cut inside the last icon payload.
    let cut = data.len() - 1;
    assert!(matches!(Ani::from_bytes_strict(&data[..cut]), Err(DecodeError::NotEnoughBytes { needed: 1 })));
    // Cut before the signature's size field ends.
    assert!(matches!(Ani::from_bytes_strict(&data[..6]), Err(DecodeError::NotEnoughBytes { needed: 2 })));
    assert!(matches!(Ani::from_bytes(&data[..2]), Err(DecodeError::NotEnoughBytes { needed: 2 })));
}

#[test]
fn strict_truncation_every_cut() {
    let body = sample_body();
    let mut data = b"RIFF".to_vec();
    data.extend_from_slice(&le(4));
    data.extend_from_slice(b"ACON");
    data.extend_from_slice(&body);
    let p1 = icon_payload(&[1, 2, 3, 4]).len();
    let p2 = icon_payload(&[9, 8]).len();
    let fields = [4, 4, 4, 4, 4, 36, 4, 4, 12, 4, 4, 12, 4, 4, 4, 4, 4, p1, 4, 4, p2];
    assert_eq!(fields.iter().sum::<usize>(), data.len());
    let mut ends = Vec::new();
    let mut end = 0;
    for f in fields {
        end += f;
        ends.push(end);
    }
    for k in (0..8).chain(12..data.len()) {
        let next = *ends.iter().find(|e| **e > k).unwrap();
        match Ani::from_bytes_strict(&data[..k]) {
            Err(DecodeError::NotEnoughBytes { needed }) => assert_eq!(needed, next - k, "cut at {k}"),
            _ => panic!("cut at {k} did not fail for want of bytes"),
        }
    }
    for k in 8..12 {
        assert!(matches!(Ani::from_bytes_strict(&data[..k]), Err(DecodeError::SizeMismatch { .. })));
    }
}
