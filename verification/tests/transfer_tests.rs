use handheld_core::source::StoredPixels;
use handheld_core::streamer::{DmaStreamer, ScreenHandler, Streamer};
use handheld_core::transfer::{DmaTransfer, LineTransfer};

#[test]
fn submit_returns_buffer_from_two_calls_before() {
    let mut transfer: DmaTransfer<u16> = DmaTransfer::new(Vec::new(), vec![100; 4], vec![200; 4]);
    assert_eq!(transfer.do_tranfer(vec![1; 4], 4), vec![200; 4]);
    assert_eq!(transfer.do_tranfer(vec![2; 4], 4), vec![100; 4]);
    assert_eq!(transfer.do_tranfer(vec![3; 4], 4), vec![1; 4]);
    assert_eq!(transfer.do_tranfer(vec![4; 4], 4), vec![2; 4]);
    assert_eq!(transfer.do_tranfer(vec![5; 4], 4), vec![3; 4]);
    let (sink, first, second) = transfer.free();
    assert_eq!(first, vec![4; 4]);
    assert_eq!(second, vec![5; 4]);
    assert_eq!(sink.len(), 20);
}

#[test]
fn idle_transfer_gives_back_both_buffers() {
    let transfer: DmaTransfer<u8> = DmaTransfer::new(vec![9], vec![1, 2], vec![3]);
    let (sink, first, second) = transfer.free();
    assert_eq!(sink, vec![9]);
    assert_eq!(first, vec![1, 2]);
    assert_eq!(second, vec![3]);
}

#[test]
fn only_valid_words_are_transferred() {
    let mut transfer: DmaTransfer<u16> = DmaTransfer::new(Vec::new(), vec![0; 3], vec![0; 3]);
    transfer.do_tranfer(vec![7, 8, 9], 2);
    transfer.send_scanline(vec![4, 5, 6], 0);
    transfer.send_scanline(vec![1, 2, 3], 3);
    let (sink, _, _) = transfer.free();
    assert_eq!(sink, vec![7, 8, 1, 2, 3]);
}

#[test]
fn stream_16b_sends_every_word_in_order() {
    let mut streamer = DmaStreamer::new(vec![0u16; 10]);
    let words: Vec<u16> = (1..=25).collect();
    let mut source = StoredPixels::new(words.clone());
    let sink = streamer.stream_16b(vec![0xFFFF], &mut source, |w| w);
    let mut expected = vec![0xFFFF];
    expected.extend(words.iter());
    assert_eq!(sink, expected);
    let mut again = StoredPixels::new(vec![5u16, 6]);
    let sink = streamer.stream_16b(Vec::new(), &mut again, |w| w.swap_bytes());
    assert_eq!(sink, vec![0x0500, 0x0600]);
}

#[test]
fn stream_16b_of_nothing_sends_nothing() {
    let mut streamer = DmaStreamer::new(vec![0u16; 3]);
    let mut source = StoredPixels::new(Vec::<u16>::new());
    assert_eq!(streamer.stream_16b(vec![1, 2], &mut source, |w| w), vec![1, 2]);
}

#[test]
fn stream_8b_sends_every_byte_in_order() {
    let mut streamer = DmaStreamer::new(vec![0u16; 7]);
    let bytes: Vec<u8> = (0..=99).collect();
    let mut source = StoredPixels::new(bytes.clone());
    assert_eq!(streamer.stream_8b(Vec::new(), &mut source), bytes);
    let mut source = StoredPixels::new(vec![1u16, 2, 3]);
    assert_eq!(streamer.stream_16b(Vec::new(), &mut source, |w| w), vec![1, 2, 3]);
}

#[test]
fn compute_line_flushes_partial_line() {
    let transfer: DmaTransfer<u32> = DmaTransfer::new(Vec::new(), vec![0; 4], vec![0; 4]);
    let mut source = StoredPixels::new(vec![10u32, 20, 30, 40, 50, 60]);
    let (transfer, line) = DmaStreamer::compute_line(transfer, vec![0; 4], &mut source);
    assert_eq!(line.len(), 4);
    let (sink, _, _) = transfer.free();
    assert_eq!(sink, vec![10, 20, 30, 40, 50, 60]);
}

#[test]
fn compute_line_u16_applies_the_function() {
    let transfer: DmaTransfer<u16> = DmaTransfer::new(Vec::new(), vec![0; 2], vec![0; 2]);
    let mut source = StoredPixels::new(vec![1u16, 2, 3]);
    let (transfer, _) = DmaStreamer::compute_line_u16(transfer, vec![0; 2], &mut source, |w| w + 1);
    let (sink, _, _) = transfer.free();
    assert_eq!(sink, vec![2, 3, 4]);
}

#[test]
fn screen_handler_packs_each_pixel_into_words() {
    let transfer: DmaTransfer<u8> = DmaTransfer::new(Vec::new(), vec![0; 4], vec![0; 4]);
    let mut source = StoredPixels::new(vec![0x0102u16, 0x0304, 0x0506]);
    let handler = ScreenHandler::new(&mut source, transfer, vec![0u8; 4], |p: u16| {
        [(p >> 8) as u8, p as u8]
    });
    let (transfer, line) = handler.compute_line();
    assert_eq!(line.len(), 4);
    let (sink, _, _) = transfer.free();
    assert_eq!(sink, vec![1, 2, 3, 4, 5, 6]);
}

#[test]
fn screen_handler_copes_with_lines_not_a_multiple_of_the_pack_size() {
    let transfer: DmaTransfer<u8> = DmaTransfer::new(Vec::new(), vec![0; 3], vec![0; 5]);
    let mut source = StoredPixels::new(vec![1u8, 2, 3, 4, 5]);
    let handler = ScreenHandler::new(&mut source, transfer, vec![0u8; 4], |p: u8| [p, p, p]);
    let (transfer, _) = handler.compute_line();
    let (sink, _, _) = transfer.free();
    assert_eq!(sink, vec![1, 1, 1, 2, 2, 2, 3, 3, 3, 4, 4, 4, 5, 5, 5]);
}

#[test]
fn streamer_streams_through_three_buffers() {
    let mut streamer: Streamer<u16> = Streamer::new(vec![0; 4], vec![0; 4], vec![0; 4]);
    let mut source = StoredPixels::new((0..50u16).collect::<Vec<u16>>());
    let sink = streamer.stream(Vec::new(), &mut source, |p: u16| [p, p + 100]);
    assert_eq!(sink.len(), 100);
    for p in 0..50usize {
        assert_eq!(sink[2 * p], p as u16);
        assert_eq!(sink[2 * p + 1], p as u16 + 100);
    }
    let mut source = StoredPixels::new(vec![7u16]);
    assert_eq!(streamer.stream(vec![1], &mut source, |p: u16| [p]), vec![1, 7]);
}
