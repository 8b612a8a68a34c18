use handheld_core::scaler::{generate_scaling_ratio, ScreenScaler};
use handheld_core::source::{ScanlinePixelSource, StoredPixels};

fn drain<S: ScanlinePixelSource<Item = u16>>(source: &mut S) -> Vec<u16> {
    let mut out = Vec::new();
    while let Some(pixel) = source.next() {
        out.push(pixel);
    }
    out
}

#[test]
fn boundary_table_doubles_width() {
    let table = generate_scaling_ratio(160, 320);
    assert_eq!(table.len(), 160);
    for i in 0..160 {
        assert_eq!(table[i] as usize, 2 * (i + 1));
    }
}

#[test]
fn boundary_table_exact_values_for_five_thirds() {
    let table = generate_scaling_ratio(144, 240);
    assert_eq!(&table[..6], &[2, 4, 5, 7, 9, 10]);
    assert_eq!(table[143], 240);
}

#[test]
fn boundary_table_is_monotone_and_ends_at_target() {
    for source in 1..40usize {
        for target in 0..90usize {
            let table = generate_scaling_ratio(source, target);
            assert_eq!(table.len(), source);
            for i in 1..source {
                assert!(table[i - 1] <= table[i]);
            }
            assert_eq!(table[source - 1] as usize, target);
        }
    }
}

#[test]
fn boundary_table_downscale() {
    assert_eq!(generate_scaling_ratio(4, 2), vec![1, 1, 2, 2]);
    assert_eq!(generate_scaling_ratio(3, 0), vec![0, 0, 0]);
    assert_eq!(generate_scaling_ratio(0, 7), Vec::<u16>::new());
}

#[test]
fn row_repeats_sum_to_target_height_and_differ_by_one_at_most() {
    let table = generate_scaling_ratio(144, 240);
    let mut previous = 0u16;
    let mut repeats = Vec::new();
    for edge in table.iter() {
        repeats.push(*edge - previous);
        previous = *edge;
    }
    assert_eq!(repeats.iter().map(|r| *r as usize).sum::<usize>(), 240);
    for pair in repeats.windows(2) {
        let difference = if pair[0] > pair[1] { pair[0] - pair[1] } else { pair[1] - pair[0] };
        assert!(difference <= 1);
    }
    assert_eq!(&repeats[..3], &[2, 2, 1]);
}

#[test]
fn each_source_pixel_fills_two_consecutive_columns() {
    let scaler = ScreenScaler::<1, 160, 1, 320>::new();
    let row: Vec<u16> = (0..160u16).map(|x| x + 1000).collect();
    let mut scaled = scaler.scale_iterator(StoredPixels::new(row.clone()));
    let out = drain(&mut scaled);
    assert_eq!(out.len(), 320);
    for i in 0..160 {
        assert_eq!(out[2 * i], row[i]);
        assert_eq!(out[2 * i + 1], row[i]);
    }
}

#[test]
fn full_frame_scales_to_target_frame() {
    let scaler = ScreenScaler::<144, 160, 240, 320>::new();
    assert_eq!(scaler.width_boundaries().len(), 160);
    assert_eq!(scaler.height_boundaries().len(), 144);
    let mut frame: Vec<u16> = Vec::new();
    for y in 0..144u16 {
        for x in 0..160u16 {
            frame.push(y.wrapping_mul(160).wrapping_add(x));
        }
    }
    let mut scaled = scaler.scale_iterator(StoredPixels::new(frame.clone()));
    let out = drain(&mut scaled);
    assert_eq!(out.len(), 320 * 240);
    let row0: Vec<u16> = (0..320usize).map(|x| frame[x / 2]).collect();
    assert_eq!(&out[0..320], &row0[..]);
    assert_eq!(&out[320..640], &row0[..]);
    let row1: Vec<u16> = (0..320usize).map(|x| frame[160 + x / 2]).collect();
    assert_eq!(&out[640..960], &row1[..]);
    for y in 0..240usize {
        let source_row = y * 144 / 240;
        for x in 0..320usize {
            assert_eq!(out[y * 320 + x], frame[source_row * 160 + x * 160 / 320]);
        }
    }
}

#[test]
fn scaler_restarts_at_frame_boundary() {
    let scaler = ScreenScaler::<2, 2, 3, 3>::new();
    let pixels: Vec<u16> = vec![1, 2, 3, 4, 5, 6, 7, 8];
    let mut scaled = scaler.scale_iterator(StoredPixels::new(pixels));
    let out = drain(&mut scaled);
    assert_eq!(
        out,
        vec![
            1, 1, 2, 1, 1, 2, 3, 3, 4, 5, 5, 6, 5, 5, 6, 7, 7, 8,
        ]
    );
}

#[test]
fn scaler_stops_on_incomplete_row() {
    let scaler = ScreenScaler::<2, 3, 2, 3>::new();
    let mut scaled = scaler.scale_iterator(StoredPixels::new(vec![9, 8, 7, 6, 5]));
    assert_eq!(drain(&mut scaled), vec![9, 8, 7]);
    assert_eq!(scaled.next(), None);
}

#[test]
fn scaler_downscales_by_dropping_rows_and_columns() {
    let scaler = ScreenScaler::<4, 4, 2, 2>::new();
    let pixels: Vec<u16> = (0..16).collect();
    let mut scaled = scaler.scale_iterator(StoredPixels::new(pixels));
    assert_eq!(drain(&mut scaled), vec![0, 2, 8, 10]);
}

#[test]
fn stored_pixels_hands_out_in_order() {
    let mut source = StoredPixels::new(vec![4u16, 5, 6]);
    assert_eq!(source.next(), Some(4));
    assert_eq!(source.next(), Some(5));
    assert_eq!(source.next(), Some(6));
    assert_eq!(source.next(), None);
    assert_eq!(source.next(), None);
}
