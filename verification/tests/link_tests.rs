use handheld_core::link::{BusWord, DataFormat, DisplayError, SpiPioDmaInterface};
use handheld_core::source::StoredPixels;
use handheld_core::streamer::DmaStreamer;

type Bytes = StoredPixels<u8>;
type Words = StoredPixels<u16>;

fn link() -> SpiPioDmaInterface {
    SpiPioDmaInterface::new(DmaStreamer::new(vec![0u16; 12]))
}

fn byte(value: u8, data: bool) -> BusWord {
    BusWord { data, wide: false, value: value as u16 }
}

fn word(value: u16, data: bool) -> BusWord {
    BusWord { data, wide: true, value }
}

#[test]
fn new_link_is_idle() {
    let link = link();
    assert!(link.is_idle());
    assert!(link.wire().is_empty());
}

#[test]
fn command_bytes_go_out_with_select_low() {
    let mut link = link();
    let result = link.send_commands(DataFormat::<Bytes, Words>::U8(&[0x2A, 0x00, 0x10]));
    assert_eq!(result, Ok(()));
    assert!(!link.is_idle());
    link.shift_out();
    assert!(link.is_idle());
    assert_eq!(link.wire(), &vec![byte(0x2A, false), byte(0x00, false), byte(0x10, false)]);
}

#[test]
fn pixel_words_go_out_wide_with_select_high() {
    let mut link = link();
    let result = link.send_pixels(DataFormat::<Bytes, Words>::U16(&[0x1234, 0xABCD]));
    assert_eq!(result, Ok(()));
    link.shift_out();
    assert_eq!(link.wire(), &vec![word(0x1234, true), word(0xABCD, true)]);
}

#[test]
fn command_and_data_never_interleave() {
    let mut link = link();
    link.send_commands(DataFormat::<Bytes, Words>::U8(&[0x2C])).unwrap();
    let mut pixels = StoredPixels::new((0..40u16).collect::<Vec<u16>>());
    link.send_pixels(DataFormat::<Bytes, Words>::U16BEIter(&mut pixels)).unwrap();
    link.send_commands(DataFormat::<Bytes, Words>::U8(&[0x00])).unwrap();
    link.shift_out();
    let wire = link.wire();
    assert_eq!(wire.len(), 42);
    assert_eq!(wire[0], byte(0x2C, false));
    for k in 0..40usize {
        assert!(wire[1 + k].data);
        assert!(wire[1 + k].wide);
        assert_eq!(wire[1 + k].value, (k as u16).to_be());
    }
    assert_eq!(wire[41], byte(0x00, false));
}

#[test]
fn byte_order_forms_reorder_each_word() {
    let mut link = link();
    link.send_pixels(DataFormat::<Bytes, Words>::U16LE(&[0x0102])).unwrap();
    link.send_pixels(DataFormat::<Bytes, Words>::U16BE(&[0x0102])).unwrap();
    let mut le = StoredPixels::new(vec![0x0304u16]);
    link.send_pixels(DataFormat::<Bytes, Words>::U16LEIter(&mut le)).unwrap();
    link.shift_out();
    assert_eq!(
        link.wire(),
        &vec![
            word(0x0102u16.to_le(), true),
            word(0x0102u16.to_be(), true),
            word(0x0304u16.to_le(), true)
        ]
    );
    assert_ne!(0x0102u16.to_le(), 0x0102u16.to_be());
}

#[test]
fn byte_source_is_streamed() {
    let mut link = link();
    let mut bytes = StoredPixels::new((0..=200u8).collect::<Vec<u8>>());
    link.send_pixels(DataFormat::<Bytes, Words>::U8Iter(&mut bytes)).unwrap();
    link.shift_out();
    assert_eq!(link.wire().len(), 201);
    for k in 0..=200usize {
        assert_eq!(link.wire()[k], byte(k as u8, true));
    }
}

#[test]
fn other_formats_are_refused() {
    let mut link = link();
    link.send_pixels(DataFormat::<Bytes, Words>::U16(&[7])).unwrap();
    let result = link.send_commands(DataFormat::<Bytes, Words>::Other);
    assert_eq!(result, Err(DisplayError::DataFormatNotImplemented));
    assert!(link.is_idle());
    assert_eq!(link.wire(), &vec![word(7, true)]);
    let result = link.send_data(DataFormat::<Bytes, Words>::Other);
    assert_eq!(result, Err(DisplayError::DataFormatNotImplemented));
}

#[test]
fn send_data_keeps_the_select_level() {
    let mut link = link();
    link.send_pixels(DataFormat::<Bytes, Words>::U8(&[])).unwrap();
    assert!(link.is_idle());
    link.send_data(DataFormat::<Bytes, Words>::U8(&[9])).unwrap();
    link.shift_out();
    assert_eq!(link.wire(), &vec![byte(9, true)]);
}
