use flate2::write::ZlibEncoder;
use flate2::Compression;
use pixstream::decoder::decode;
use pixstream::decoder::decode_inflated;
use pixstream::decoder::read_container;
use pixstream::error::DecodeError;
use pixstream::error::FormatError;
use pixstream::metadata::ImageMetaData;
use std::io::Write;

const SIGNATURE: [u8; 8] = [137, 80, 78, 71, 13, 10, 26, 10];

fn record(tag: &[u8; 4], payload: &[u8]) -> Vec<u8> {
    let mut out = Vec::new();
    out.extend_from_slice(&(payload.len() as u32).to_be_bytes());
    out.extend_from_slice(tag);
    out.extend_from_slice(payload);
    out.extend_from_slice(&[0, 0, 0, 0]);
    out
}

fn header(width: u32, height: u32, colour_type: u8) -> Vec<u8> {
    let mut payload = Vec::new();
    payload.extend_from_slice(&width.to_be_bytes());
    payload.extend_from_slice(&height.to_be_bytes());
    payload.extend_from_slice(&[8, colour_type, 0, 0, 0]);
    record(b"IHDR", &payload)
}

fn stream_of(width: u32, height: u32, colour_type: u8, image_data: &[&[u8]]) -> Vec<u8> {
    let mut stream = SIGNATURE.to_vec();
    stream.extend_from_slice(&header(width, height, colour_type));
    for piece in image_data {
        stream.extend_from_slice(&record(b"IDAT", piece));
    }
    stream.extend_from_slice(&record(b"IEND", &[]));
    stream
}

fn deflate(raw: &[u8]) -> Vec<u8> {
    let mut encoder = ZlibEncoder::new(Vec::new(), Compression::default());
    encoder.write_all(raw).unwrap();
    encoder.finish().unwrap()
}

fn truecolor_2x2() -> ImageMetaData {
    ImageMetaData {
        width: 2,
        height: 2,
        bit_depth: 8,
        colour_type: 2,
        compression: 0,
        filter_method: 0,
        interlace_method: 0,
    }
}

#[test]
fn end_to_end_with_a_pass_through_inflater() {
    let rows: [u8; 14] = [0, 255, 0, 0, 0, 255, 0, 0, 0, 0, 255, 255, 255, 255];
    let stream = stream_of(2, 2, 2, &[&rows]);
    let encoded = read_container(&stream).unwrap();
    assert_eq!(encoded.meta.width, 2);
    assert_eq!(encoded.meta.height, 2);
    assert_eq!(encoded.meta, truecolor_2x2());
    assert_eq!(encoded.compressed, rows.to_vec());
    let image = decode_inflated(encoded.meta, Ok(encoded.compressed)).unwrap();
    assert_eq!(image.meta.width, 2);
    assert_eq!(image.meta.height, 2);
    assert_eq!(image.pixels, vec![255, 0, 0, 0, 255, 0, 0, 0, 255, 255, 255, 255]);
}

#[test]
fn decode_inflates_the_image_data() {
    let rows: [u8; 14] = [0, 255, 0, 0, 0, 255, 0, 0, 0, 0, 255, 255, 255, 255];
    let compressed = deflate(&rows);
    assert_ne!(compressed, rows.to_vec());
    let stream = stream_of(2, 2, 2, &[&compressed]);
    let image = decode(&stream).unwrap();
    assert_eq!(image.meta, truecolor_2x2());
    assert_eq!(image.pixels, vec![255, 0, 0, 0, 255, 0, 0, 0, 255, 255, 255, 255]);
}

#[test]
fn decode_joins_image_data_records_before_inflating() {
    // Sub on row 0, Up on row 1, one byte per pixel.
    let rows: [u8; 8] = [1, 10, 10, 10, 2, 1, 2, 3];
    let compressed = deflate(&rows);
    let (front, back) = compressed.split_at(compressed.len() / 2);
    let mut stream = SIGNATURE.to_vec();
    stream.extend_from_slice(&header(3, 2, 0));
    stream.extend_from_slice(&record(b"IDAT", front));
    stream.extend_from_slice(&record(b"tIME", &[1, 2, 3, 4, 5, 6, 7]));
    stream.extend_from_slice(&record(b"IDAT", back));
    stream.extend_from_slice(&record(b"IEND", &[]));
    let image = decode(&stream).unwrap();
    assert_eq!(image.pixels, vec![10, 20, 30, 11, 22, 33]);
    assert_eq!(image.meta.colour_type, 0);
}

#[test]
fn decode_larger_image_with_every_filter() {
    let width = 64usize;
    let height = 40usize;
    let bpp = 4usize;
    let stride = width * bpp;
    let mut pixels = Vec::new();
    let mut state = 12345u32;
    for _ in 0..stride * height {
        state = state.wrapping_mul(1664525).wrapping_add(1013904223);
        pixels.push((state >> 24) as u8);
    }
    let mut raw = Vec::new();
    let mut prev = vec![0u8; stride];
    for r in 0..height {
        let ft = pixstream::scanline::FilterType::from_byte((r % 5) as u8).unwrap();
        let row = &pixels[r * stride..(r + 1) * stride];
        raw.push(ft.to_byte());
        raw.extend_from_slice(&pixstream::scanline::filter_scanline(ft, row, &prev, bpp));
        prev = row.to_vec();
    }
    let stream = stream_of(width as u32, height as u32, 6, &[&deflate(&raw)]);
    let image = decode(&stream).unwrap();
    assert_eq!(image.pixels.len(), width * height * bpp);
    assert_eq!(image.pixels, pixels);
}

#[test]
fn decode_reports_a_failed_inflation() {
    let stream = stream_of(2, 2, 2, &[&[1, 2, 3, 4, 5, 6, 7, 8]]);
    assert!(matches!(decode(&stream), Err(DecodeError::Decompression(_))));

    // A zlib stream that breaks off.
    let compressed = deflate(&[0u8; 200]);
    let cut = &compressed[..compressed.len() - 5];
    let stream = stream_of(2, 2, 2, &[cut]);
    assert!(matches!(decode(&stream), Err(DecodeError::Decompression(_))));

    // No compressed bytes at all.
    let stream = stream_of(2, 2, 2, &[&[]]);
    assert!(matches!(decode(&stream), Err(DecodeError::Decompression(_))));
}

#[test]
fn failed_inflation_is_passed_on_as_it_came() {
    let failure = std::io::Error::new(std::io::ErrorKind::InvalidData, "no good");
    match decode_inflated(truecolor_2x2(), Err(failure)) {
        Err(DecodeError::Decompression(e)) => {
            assert_eq!(e.kind(), std::io::ErrorKind::InvalidData);
            assert_eq!(format!("{}", e), "no good");
        }
        _ => panic!("expected a decompression failure"),
    }
}

#[test]
fn inflated_stream_of_the_wrong_length_is_truncated_image_data() {
    let short = deflate(&[0u8, 1, 2, 3, 4, 5, 6, 0, 1, 2, 3]);
    let stream = stream_of(2, 2, 2, &[&short]);
    assert!(matches!(
        decode(&stream),
        Err(DecodeError::Format(FormatError::TruncatedImageData))
    ));
    let res = decode_inflated(truecolor_2x2(), Ok(vec![0u8; 15]));
    assert!(matches!(res, Err(DecodeError::Format(FormatError::TruncatedImageData))));
}

#[test]
fn filter_type_five_fails_the_whole_decode() {
    let mut rows = [0u8; 14];
    rows[7] = 5;
    let stream = stream_of(2, 2, 2, &[&deflate(&rows)]);
    assert!(matches!(
        decode(&stream),
        Err(DecodeError::Format(FormatError::InvalidFilterType))
    ));
    let res = decode_inflated(truecolor_2x2(), Ok(rows.to_vec()));
    assert!(matches!(res, Err(DecodeError::Format(FormatError::InvalidFilterType))));
}

#[test]
fn container_failures_end_the_decode() {
    assert!(matches!(decode(&[]), Err(DecodeError::Format(FormatError::BadSignature))));
    assert!(matches!(decode(&SIGNATURE), Err(DecodeError::TruncatedStream)));
    let mut stream = SIGNATURE.to_vec();
    stream.extend_from_slice(&header(2, 2, 2));
    stream.extend_from_slice(&record(b"IEND", &[]));
    assert!(matches!(decode(&stream), Err(DecodeError::Format(FormatError::MissingImageData))));
    let mut stream = stream_of(2, 2, 2, &[&deflate(&[0u8; 14])]);
    stream.truncate(stream.len() - 1);
    assert!(matches!(decode(&stream), Err(DecodeError::TruncatedStream)));
}
