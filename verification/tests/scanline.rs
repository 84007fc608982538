use pixstream::error::DecodeError;
use pixstream::error::FormatError;
use pixstream::scanline::filter_scanline;
use pixstream::scanline::paeth_predictor;
use pixstream::scanline::reconstruct;
use pixstream::scanline::unfilter_scanline;
use pixstream::scanline::FilterType;

fn is_format_error<T>(res: &Result<T, DecodeError>, expected: FormatError) -> bool {
    match res {
        Err(DecodeError::Format(e)) => *e == expected,
        _ => false,
    }
}

fn pseudo_random_bytes(seed: u32, n: usize) -> Vec<u8> {
    let mut state = seed;
    let mut out = Vec::with_capacity(n);
    for _ in 0..n {
        state = state.wrapping_mul(1664525).wrapping_add(1013904223);
        out.push((state >> 24) as u8);
    }
    out
}

#[test]
fn paeth_tie_between_left_and_up_prefers_left() {
    assert_eq!(paeth_predictor(10, 10, 0), 10);
    assert_eq!(paeth_predictor(5, 5, 0), 5);
}

#[test]
fn paeth_exact_match_on_left() {
    assert_eq!(paeth_predictor(0, 10, 10), 0);
}

#[test]
fn paeth_tie_between_up_and_upper_left_prefers_up() {
    // p = 3 + 7 - 5 = 5, pa = 2, pb = 2, pc = 0: upper left is nearest.
    assert_eq!(paeth_predictor(3, 7, 5), 5);
    // p = 10 + 20 - 20 = 10, pa = 0.
    assert_eq!(paeth_predictor(10, 20, 20), 10);
    // p = 20 + 10 - 16 = 14, pa = 6, pb = 4, pc = 2.
    assert_eq!(paeth_predictor(20, 10, 16), 16);
    // p = 0 + 4 - 2 = 2, pa = 2, pb = 2, pc = 0.
    assert_eq!(paeth_predictor(0, 4, 2), 2);
    // p = 8 + 2 - 4 = 6, pa = 2, pb = 4, pc = 2: left wins the tie with upper left.
    assert_eq!(paeth_predictor(8, 2, 4), 8);
    // p = 2 + 8 - 4 = 6, pa = 4, pb = 2, pc = 2: up wins the tie with upper left.
    assert_eq!(paeth_predictor(2, 8, 4), 8);
}

#[test]
fn paeth_does_not_wrap_around() {
    // p = 200 + 200 - 0 = 400 must not be taken modulo 256.
    assert_eq!(paeth_predictor(200, 200, 0), 200);
    // p = 0 + 0 - 255 = -255: pa = 255, pb = 255, pc = 510.
    assert_eq!(paeth_predictor(0, 0, 255), 0);
    // p = 255 + 1 - 0 = 256: pa = 1, pb = 255, pc = 256.
    assert_eq!(paeth_predictor(255, 1, 0), 255);
    // p = 100 + 250 - 200 = 150: pa = 50, pb = 100, pc = 50.
    assert_eq!(paeth_predictor(100, 250, 200), 100);
}

#[test]
fn filter_none_returns_the_bytes_unchanged() {
    let row = pseudo_random_bytes(7, 24);
    let prev = pseudo_random_bytes(8, 24);
    for bpp in 1..5 {
        let out = unfilter_scanline(0, &row, &prev, bpp).unwrap();
        assert_eq!(out, row);
    }
    let empty: Vec<u8> = Vec::new();
    assert_eq!(unfilter_scanline(0, &empty, &empty, 3).unwrap(), empty);
}

#[test]
fn sub_wraps_around_modulo_256() {
    let row = [10u8, 20, 30, 250, 0, 0];
    let prev = [0u8; 6];
    let out = unfilter_scanline(1, &row, &prev, 3).unwrap();
    assert_eq!(out[0], 10);
    assert_eq!(out[3], 4);
    assert_eq!(out, vec![10, 20, 30, 4, 20, 30]);
}

#[test]
fn sub_uses_reconstructed_left_neighbour() {
    let row = [1u8, 1, 1, 1, 1];
    let prev = [9u8; 5];
    let out = unfilter_scanline(1, &row, &prev, 1).unwrap();
    assert_eq!(out, vec![1, 2, 3, 4, 5]);
    let out = unfilter_scanline(1, &row, &prev, 2).unwrap();
    assert_eq!(out, vec![1, 1, 2, 2, 3]);
}

#[test]
fn up_adds_the_byte_above() {
    let row = [1u8, 2, 3, 200];
    let prev = [10u8, 20, 30, 100];
    let out = unfilter_scanline(2, &row, &prev, 2).unwrap();
    assert_eq!(out, vec![11, 22, 33, 44]);
}

#[test]
fn average_halves_the_unwrapped_sum() {
    // First byte: a = 0, b = 100, mean 50. Second byte: a = 60, b = 255,
    // the sum 315 halves to 157 and is not wrapped before halving.
    let row = [10u8, 200];
    let prev = [100u8, 255];
    let out = unfilter_scanline(3, &row, &prev, 1).unwrap();
    assert_eq!(out, vec![60, 101]);
    // a = 255, b = 255: mean 255.
    let row = [255u8, 1];
    let prev = [0u8, 255];
    let out = unfilter_scanline(3, &row, &prev, 1).unwrap();
    assert_eq!(out, vec![255, 0]);
}

#[test]
fn paeth_row_is_reconstructed_from_three_neighbours() {
    // i = 0: a = 0, b = 10, c = 0 -> p = 10, predictor b = 10.
    // i = 1: a = 11, b = 20, c = 10 -> p = 21, pa = 10, pb = 1, pc = 11 -> 20.
    let row = [1u8, 2];
    let prev = [10u8, 20];
    let out = unfilter_scanline(4, &row, &prev, 1).unwrap();
    assert_eq!(out, vec![11, 22]);
}

#[test]
fn invalid_filter_type_on_a_row_is_refused() {
    let row = [1u8, 2, 3];
    let prev = [0u8; 3];
    for ft in [5u8, 6, 77, 255] {
        let res = unfilter_scanline(ft, &row, &prev, 1);
        assert!(is_format_error(&res, FormatError::InvalidFilterType));
    }
}

#[test]
fn filter_type_bytes() {
    assert_eq!(FilterType::from_byte(0), Some(FilterType::Plain));
    assert_eq!(FilterType::from_byte(1), Some(FilterType::Sub));
    assert_eq!(FilterType::from_byte(2), Some(FilterType::Up));
    assert_eq!(FilterType::from_byte(3), Some(FilterType::Average));
    assert_eq!(FilterType::from_byte(4), Some(FilterType::Paeth));
    assert_eq!(FilterType::from_byte(5), None);
    assert_eq!(FilterType::from_byte(255), None);
    for b in 0..5u8 {
        assert_eq!(FilterType::from_byte(b).unwrap().to_byte(), b);
    }
}

#[test]
fn filter_scanline_exact_values() {
    let raw = [10u8, 20, 5, 250];
    let prev = [3u8, 30, 7, 1];
    assert_eq!(filter_scanline(FilterType::Plain, &raw, &prev, 1), vec![10, 20, 5, 250]);
    assert_eq!(filter_scanline(FilterType::Sub, &raw, &prev, 1), vec![10, 10, 241, 245]);
    assert_eq!(filter_scanline(FilterType::Up, &raw, &prev, 1), vec![7, 246, 254, 249]);
    // means: (0+3)/2 = 1, (10+30)/2 = 20, (20+7)/2 = 13, (5+1)/2 = 3
    assert_eq!(filter_scanline(FilterType::Average, &raw, &prev, 1), vec![9, 0, 248, 247]);
}

#[test]
fn unfilter_inverts_filter_for_every_filter_and_pixel_width() {
    let filters = [
        FilterType::Plain,
        FilterType::Sub,
        FilterType::Up,
        FilterType::Average,
        FilterType::Paeth,
    ];
    let mut seed = 1u32;
    for ft in filters {
        for bpp in 1..5usize {
            for len in [0usize, 1, 2, 3, 4, 5, 12, 31, 64] {
                seed += 1;
                let raw = pseudo_random_bytes(seed, len);
                let prev = pseudo_random_bytes(seed.wrapping_mul(31), len);
                let stored = filter_scanline(ft, &raw, &prev, bpp);
                assert_eq!(stored.len(), len);
                let back = unfilter_scanline(ft.to_byte(), &stored, &prev, bpp).unwrap();
                assert_eq!(back, raw);
            }
        }
    }
}

#[test]
fn filter_inverts_unfilter() {
    let stored = pseudo_random_bytes(99, 40);
    let prev = pseudo_random_bytes(100, 40);
    for b in 0..5u8 {
        let ft = FilterType::from_byte(b).unwrap();
        let raw = unfilter_scanline(b, &stored, &prev, 4).unwrap();
        assert_eq!(filter_scanline(ft, &raw, &prev, 4), stored);
    }
}

#[test]
fn reconstruct_two_rows_without_filter() {
    let stream = [0u8, 1, 2, 3, 4, 5, 6, 0, 7, 8, 9, 10, 11, 12];
    let out = reconstruct(&stream, 2, 2, 3).unwrap();
    assert_eq!(out, vec![1, 2, 3, 4, 5, 6, 7, 8, 9, 10, 11, 12]);
}

#[test]
fn reconstruct_uses_the_reconstructed_row_above() {
    // Row 0 with Sub: 5, 5+5, 10+5. Row 1 with Up adds the reconstructed
    // row above, not its stored bytes. Row 2 with Up again.
    let stream = [1u8, 5, 5, 5, 2, 1, 1, 1, 2, 1, 1, 1];
    let out = reconstruct(&stream, 3, 3, 1).unwrap();
    assert_eq!(out, vec![5, 10, 15, 6, 11, 16, 7, 12, 17]);
}

#[test]
fn reconstruct_first_row_sees_zero_row_above() {
    // Up, Average and Paeth on the first row meet an all-zero row.
    assert_eq!(reconstruct(&[2u8, 9, 8, 7], 3, 1, 1).unwrap(), vec![9, 8, 7]);
    // Average: 10, 10 + 10/2 = 15, 10 + 15/2 = 17.
    assert_eq!(reconstruct(&[3u8, 10, 10, 10], 3, 1, 1).unwrap(), vec![10, 15, 17]);
    // Paeth with b = c = 0 predicts a.
    assert_eq!(reconstruct(&[4u8, 10, 10, 10], 3, 1, 1).unwrap(), vec![10, 20, 30]);
}

#[test]
fn reconstruct_mixed_filters_round_trip() {
    let width = 5u32;
    let height = 6u32;
    for bpp in 1..5usize {
        let stride = width as usize * bpp;
        let pixels = pseudo_random_bytes(4242 + bpp as u32, stride * height as usize);
        let mut stream = Vec::new();
        let mut prev = vec![0u8; stride];
        for r in 0..height as usize {
            let ft = FilterType::from_byte((r % 5) as u8).unwrap();
            let raw = &pixels[r * stride..(r + 1) * stride];
            stream.push(ft.to_byte());
            stream.extend_from_slice(&filter_scanline(ft, raw, &prev, bpp));
            prev = raw.to_vec();
        }
        assert_eq!(stream.len(), height as usize * (1 + stride));
        assert_eq!(reconstruct(&stream, width, height, bpp).unwrap(), pixels);
    }
}

#[test]
fn reconstruct_refuses_filter_type_five_on_any_row() {
    for bad_row in 0..3usize {
        let mut stream = vec![0u8, 1, 2, 0, 3, 4, 0, 5, 6];
        stream[bad_row * 3] = 5;
        let res = reconstruct(&stream, 2, 3, 1);
        assert!(is_format_error(&res, FormatError::InvalidFilterType));
    }
}

#[test]
fn reconstruct_refuses_a_stream_of_the_wrong_length() {
    let stream = [0u8, 1, 2, 3, 0, 4, 5];
    assert!(is_format_error(&reconstruct(&stream, 3, 2, 1), FormatError::TruncatedImageData));
    let stream = [0u8, 1, 2, 3, 0, 4, 5, 6, 0];
    assert!(is_format_error(&reconstruct(&stream, 3, 2, 1), FormatError::TruncatedImageData));
    let empty: [u8; 0] = [];
    assert!(is_format_error(&reconstruct(&empty, 1, 1, 1), FormatError::TruncatedImageData));
    // The length is checked before the filter types are.
    let stream = [9u8, 1, 2];
    assert!(is_format_error(&reconstruct(&stream, 3, 1, 1), FormatError::TruncatedImageData));
}

#[test]
fn reconstruct_huge_dimensions_do_not_overflow() {
    let stream = [0u8; 16];
    let res = reconstruct(&stream, u32::MAX, u32::MAX, usize::MAX);
    assert!(is_format_error(&res, FormatError::TruncatedImageData));
    let res = reconstruct(&stream, u32::MAX, 1, 4);
    assert!(is_format_error(&res, FormatError::TruncatedImageData));
}

#[test]
fn reconstruct_empty_image() {
    let empty: [u8; 0] = [];
    assert_eq!(reconstruct(&empty, 7, 0, 3).unwrap(), Vec::<u8>::new());
    // Rows without pixels still carry their filter-type byte.
    assert_eq!(reconstruct(&[0u8, 4], 0, 2, 3).unwrap(), Vec::<u8>::new());
    assert!(is_format_error(&reconstruct(&[0u8, 5], 0, 2, 3), FormatError::InvalidFilterType));
}
