//! Filling scanline buffers from a pixel source and handing them to a line
//! transfer as they fill up.

use crate::source::ScanlinePixelSource;
use crate::transfer::{DmaTransfer, LineTransfer};
use vstd::prelude::*;

verus! {

/// The words of `outputs` one after the other.
pub open spec fn flattened<DO, const TS: usize>(outputs: Seq<[DO; TS]>) -> Seq<DO>
    decreases outputs.len(),
{
    if outputs.len() == 0 {
        Seq::empty()
    } else {
        flattened(outputs.drop_last()) + outputs.last()@
    }
}

/// `outputs` holds, for each pixel of `pixels` in turn, what `converter` made
/// of it.
pub open spec fn converted<DI, DO, F: Fn(DI) -> [DO; TS], const TS: usize>(
    converter: F,
    pixels: Seq<DI>,
    outputs: Seq<[DO; TS]>,
) -> bool {
    &&& outputs.len() == pixels.len()
    &&& forall|k: int|
        0 <= k < pixels.len() ==> call_ensures(converter, (pixels[k],), #[trigger] outputs[k])
}

/// Streams a pixel source to a line transfer, each pixel turned into `TS`
/// words on the way.
#[verifier::reject_recursive_types(DI)]
#[verifier::reject_recursive_types(DO)]
pub struct ScreenHandler<'a, DI, DO, T: LineTransfer<Item = DO>, I: ScanlinePixelSource<Item = DI>, F, const TS: usize> {
    iterator: &'a mut I,
    scaled_scan_line_buffer: Vec<DO>,
    line_transfer: T,
    type_converter: F,
}

impl<'a, DI, DO: Copy, T: LineTransfer<Item = DO>, I: ScanlinePixelSource<Item = DI>, F: Fn(DI) -> [DO; TS], const TS: usize> ScreenHandler<'a, DI, DO, T, I, F, TS> {
    /// The pixels that the source still has.
    pub closed spec fn pixels(&self) -> Seq<DI> {
        self.iterator.remaining()
    }

    /// The words handed to the transfer so far.
    pub closed spec fn sent(&self) -> Seq<DO> {
        self.line_transfer.sent()
    }

    /// The converter in use.
    pub closed spec fn converter(&self) -> F {
        self.type_converter
    }

    /// The source and the transfer can be used, the line to fill is not
    /// empty, and the converter takes every pixel.
    pub closed spec fn wf(&self) -> bool {
        &&& self.iterator.valid()
        &&& self.line_transfer.ready()
        &&& 0 < self.scaled_scan_line_buffer@.len() <= u32::MAX
        &&& forall|pixel: DI| call_requires(self.type_converter, (pixel,))
    }

    /// A handler that will fill `buffer` first.
    pub fn new(iterator: &'a mut I, line_transfer: T, buffer: Vec<DO>, converter: F) -> (handler: Self)
        requires
            old(iterator).valid(),
            line_transfer.ready(),
            0 < buffer@.len() <= u32::MAX,
            forall|pixel: DI| call_requires(converter, (pixel,)),
        ensures
            handler.wf(),
            handler.pixels() == old(iterator).remaining(),
            handler.sent() == line_transfer.sent(),
            handler.converter() == converter,
    {
        Self {
            iterator,
            scaled_scan_line_buffer: buffer,
            line_transfer,
            type_converter: converter,
        }
    }

    /// Reads the source to its end. Each pixel is converted, and its words go
    /// into the line in hand; a line that is full is handed to the transfer,
    /// and the line that comes back is filled next. A last line that is only
    /// partly filled is handed over with the count of its words. The transfer
    /// and the line in hand come back.
    pub fn compute_line(self) -> (parts: (T, Vec<DO>))
        requires
            self.wf(),
        ensures
            parts.0.ready(),
            0 < parts.1@.len() <= u32::MAX,
            exists|outputs: Seq<[DO; TS]>|
                converted(self.converter(), self.pixels(), outputs) && parts.0.sent() == self.sent()
                    + flattened(outputs),
    {
        let ScreenHandler {
            iterator,
            scaled_scan_line_buffer,
            line_transfer,
            type_converter,
        } = self;
        let mut transfer = line_transfer;
        let mut buffer = scaled_scan_line_buffer;
        let mut width_position: usize = 0;
        let ghost pixels = iterator.remaining();
        let ghost start = transfer.sent();
        let ghost mut outputs: Seq<[DO; TS]> = Seq::empty();
        let ghost mut consumed: int = 0;
        proof {
            assert(pixels.skip(0) =~= pixels);
            assert(transfer.sent() + buffer@.take(0) =~= start + flattened(outputs));
        }
        loop
            invariant_except_break
                iterator.valid(),
                iterator.remaining() == pixels.skip(consumed),
            invariant
                transfer.ready(),
                0 < buffer@.len() <= u32::MAX,
                width_position < buffer@.len(),
                forall|pixel: DI| call_requires(type_converter, (pixel,)),
                0 <= consumed <= pixels.len(),
                converted(type_converter, pixels.take(consumed), outputs),
                transfer.sent() + buffer@.take(width_position as int) == start + flattened(outputs),
            ensures
                consumed == pixels.len(),
            decreases pixels.len() - consumed,
        {
            let next = iterator.next();
            if next.is_none() {
                break ;
            }
            let pixel = next.unwrap();
            let out = type_converter(pixel);
            let ghost words = start + flattened(outputs);
            let mut i: usize = 0;
            while i < TS
                invariant
                    i <= TS,
                    transfer.ready(),
                    0 < buffer@.len() <= u32::MAX,
                    width_position < buffer@.len(),
                    transfer.sent() + buffer@.take(width_position as int) == words + out@.take(
                        i as int,
                    ),
                decreases TS - i,
            {
                let ghost sent = transfer.sent();
                let ghost line = buffer@;
                buffer.set(width_position, out[i]);
                width_position += 1;
                proof {
                    assert(buffer@.take(width_position as int) =~= line.take(width_position - 1).push(
                        out@[i as int],
                    ));
                    assert(out@.take(i + 1) =~= out@.take(i as int).push(out@[i as int]));
                    assert(sent + line.take(width_position - 1) == words + out@.take(i as int));
                    assert(sent + buffer@.take(width_position as int) =~= (sent + line.take(
                        width_position - 1,
                    )).push(out@[i as int]));
                    assert(words + out@.take(i + 1) =~= (words + out@.take(i as int)).push(
                        out@[i as int],
                    ));
                }
                if width_position == buffer.len() {
                    let size = buffer.len() as u32;
                    let ghost full = buffer@;
                    buffer = transfer.send_scanline(buffer, size);
                    width_position = 0;
                    proof {
                        assert(full.take(size as int) =~= full);
                        assert(transfer.sent() + buffer@.take(0) =~= words + out@.take(i + 1));
                    }
                }
                i += 1;
            }
            proof {
                let longer = outputs.push(out);
                assert(longer.drop_last() =~= outputs);
                assert(out@.take(TS as int) =~= out@);
                assert(pixels.skip(consumed).skip(1) =~= pixels.skip(consumed + 1));
                assert forall|k: int| 0 <= k < consumed + 1 implies call_ensures(
                    type_converter,
                    (pixels.take(consumed + 1)[k],),
                    #[trigger] longer[k],
                ) by {
                    if k < consumed {
                        assert(pixels.take(consumed)[k] == pixels[k]);
                        assert(longer[k] == outputs[k]);
                    }
                }
                outputs = longer;
                consumed = consumed + 1;
            }
        }
        proof {
            assert(pixels.take(consumed) =~= pixels);
        }
        if width_position > 0 {
            buffer = transfer.send_scanline(buffer, width_position as u32);
        }
        proof {
            assert(transfer.sent() =~= start + flattened(outputs));
            assert(converted(self.converter(), self.pixels(), outputs));
        }
        (transfer, buffer)
    }
}

/// `words` holds, for each pixel of `pixels` in turn, what `f` made of it.
pub open spec fn mapped<DI, DO, F: Fn(DI) -> DO>(f: F, pixels: Seq<DI>, words: Seq<DO>) -> bool {
    &&& words.len() == pixels.len()
    &&& forall|k: int| 0 <= k < pixels.len() ==> call_ensures(f, (pixels[k],), #[trigger] words[k])
}

/// Reads `iterator` to its end and hands what `f` makes of each pixel to
/// `transfer`, line by line, starting with `buffer`; the last line may be
/// partly filled.
fn stream_mapped<DI, DO: Copy, T: LineTransfer<Item = DO>, I: ScanlinePixelSource<Item = DI>, F: Fn(DI) -> DO>(
    transfer: T,
    buffer: Vec<DO>,
    iterator: &mut I,
    f: F,
) -> (parts: (T, Vec<DO>))
    requires
        transfer.ready(),
        0 < buffer@.len() <= u32::MAX,
        old(iterator).valid(),
        forall|pixel: DI| call_requires(f, (pixel,)),
    ensures
        parts.0.ready(),
        0 < parts.1@.len() <= u32::MAX,
        final(iterator).valid(),
        exists|words: Seq<DO>|
            mapped(f, old(iterator).remaining(), words) && parts.0.sent() == transfer.sent() + words,
{
    let mut transfer = transfer;
    let mut buffer = buffer;
    let mut width_position: usize = 0;
    let ghost pixels = iterator.remaining();
    let ghost start = transfer.sent();
    let ghost mut words: Seq<DO> = Seq::empty();
    proof {
        assert(pixels.skip(0) =~= pixels);
        assert(transfer.sent() + buffer@.take(0) =~= start + words);
    }
    loop
        invariant_except_break
            iterator.remaining() == pixels.skip(words.len() as int),
        invariant
            iterator.valid(),
            transfer.ready(),
            0 < buffer@.len() <= u32::MAX,
            width_position < buffer@.len(),
            forall|pixel: DI| call_requires(f, (pixel,)),
            words.len() <= pixels.len(),
            mapped(f, pixels.take(words.len() as int), words),
            transfer.sent() + buffer@.take(width_position as int) == start + words,
        ensures
            words.len() == pixels.len(),
        decreases pixels.len() - words.len(),
    {
        let next = iterator.next();
        if next.is_none() {
            break ;
        }
        let out = f(next.unwrap());
        let ghost sent = transfer.sent();
        let ghost line = buffer@;
        let ghost count = words.len() as int;
        buffer.set(width_position, out);
        width_position += 1;
        proof {
            let longer = words.push(out);
            assert(buffer@.take(width_position as int) =~= line.take(width_position - 1).push(out));
            assert(sent + buffer@.take(width_position as int) =~= (sent + line.take(
                width_position - 1,
            )).push(out));
            assert(start + longer =~= (start + words).push(out));
            assert(pixels.skip(count).skip(1) =~= pixels.skip(count + 1));
            assert forall|k: int| 0 <= k < count + 1 implies call_ensures(
                f,
                (pixels.take(count + 1)[k],),
                #[trigger] longer[k],
            ) by {
                if k < count {
                    assert(pixels.take(count)[k] == pixels[k]);
                    assert(longer[k] == words[k]);
                }
            }
            words = longer;
        }
        if width_position == buffer.len() {
            let size = buffer.len() as u32;
            let ghost full = buffer@;
            buffer = transfer.send_scanline(buffer, size);
            width_position = 0;
            proof {
                assert(full.take(size as int) =~= full);
                assert(transfer.sent() + buffer@.take(0) =~= start + words);
            }
        }
    }
    proof {
        assert(pixels.take(words.len() as int) =~= pixels);
    }
    if width_position > 0 {
        buffer = transfer.send_scanline(buffer, width_position as u32);
    }
    proof {
        assert(transfer.sent() =~= start + words);
    }
    (transfer, buffer)
}

/// Wraps `byte_slice_cast::ToByteSlice::to_byte_slice`: the bytes of `words`
/// as they lie in memory, two for each word. Which byte of a word comes first
/// depends on the machine, so nothing is said of the bytes themselves.
#[verifier::external_body]
fn byte_line(words: &Vec<u16>) -> (bytes: Vec<u8>)
    ensures
        bytes@.len() == 2 * words@.len(),
{
    byte_slice_cast::ToByteSlice::to_byte_slice(words.as_slice()).to_vec()
}

/// A line of bytes over the memory of `words`, cut down to what the word
/// count of a transfer can express.
fn staging_line(words: &Vec<u16>) -> (bytes: Vec<u8>)
    requires
        0 < words@.len(),
    ensures
        0 < bytes@.len() <= u32::MAX,
        bytes@.len() == if 2 * words@.len() <= u32::MAX {
            2 * words@.len()
        } else {
            u32::MAX as nat
        },
{
    let mut bytes = byte_line(words);
    if bytes.len() > u32::MAX as usize {
        bytes.truncate(u32::MAX as usize);
    }
    bytes
}

/// Three scanline buffers that take turns: one is filled while the transfer
/// engine holds the other two.
pub struct DmaStreamer {
    spare_buffer: Option<Vec<u16>>,
    spare_buffer2: Option<Vec<u16>>,
    main_buffer: Option<Vec<u16>>,
}

impl DmaStreamer {
    /// The lengths of the three buffers: the one filled first, the spare one of
    /// the transfer, and the one that the transfer starts on.
    pub closed spec fn line_lengths(&self) -> (nat, nat, nat) {
        (
            self.spare_buffer->0@.len(),
            self.spare_buffer2->0@.len(),
            self.main_buffer->0@.len(),
        )
    }

    /// All three buffers are at hand, none is empty, and the length of each
    /// fits the word count of a transfer.
    pub closed spec fn wf(&self) -> bool {
        &&& self.spare_buffer is Some
        &&& self.spare_buffer2 is Some
        &&& self.main_buffer is Some
        &&& 0 < self.spare_buffer->0@.len() <= u32::MAX
        &&& 0 < self.spare_buffer2->0@.len() <= u32::MAX
        &&& 0 < self.main_buffer->0@.len() <= u32::MAX
    }

    /// Cuts `spare_buffer` into three buffers. The first two have a third of
    /// its length each, rounded down, and the last has the rest.
    pub fn new(spare_buffer: Vec<u16>) -> (streamer: Self)
        requires
            3 <= spare_buffer@.len() <= u32::MAX,
        ensures
            streamer.wf(),
            streamer.line_lengths() == (
                spare_buffer@.len() / 3,
                spare_buffer@.len() / 3,
                (spare_buffer@.len() - 2 * (spare_buffer@.len() / 3)) as nat,
            ),
    {
        let chunk_size = spare_buffer.len() / 3;
        let mut part1 = spare_buffer;
        let mut part2 = part1.split_off(chunk_size);
        let part3 = part2.split_off(chunk_size);
        Self {
            spare_buffer: Some(part1),
            spare_buffer2: Some(part2),
            main_buffer: Some(part3),
        }
    }

    /// Streams the words of `iterator`, each passed through `f`, into the sink
    /// `tx` through a double-buffered transfer, and gives the sink back.
    pub fn stream_16b<I: ScanlinePixelSource<Item = u16>, F: Fn(u16) -> u16>(
        &mut self,
        tx: Vec<u16>,
        iterator: &mut I,
        f: F,
    ) -> (sink: Vec<u16>)
        requires
            old(self).wf(),
            old(iterator).valid(),
            forall|pixel: u16| call_requires(f, (pixel,)),
        ensures
            final(self).wf(),
            final(iterator).valid(),
            exists|words: Seq<u16>|
                mapped(f, old(iterator).remaining(), words) && sink@ == tx@ + words,
    {
        let spare_buffer = self.spare_buffer.take().unwrap();
        let spare_buffer2 = self.spare_buffer2.take().unwrap();
        let main_buffer = self.main_buffer.take().unwrap();
        let stream = DmaTransfer::new(tx, main_buffer, spare_buffer2);
        let (stream, spare_buffer) = Self::compute_line_u16(stream, spare_buffer, iterator, f);
        let (sink, main_buffer, spare_buffer2) = stream.free();
        self.main_buffer = Some(main_buffer);
        self.spare_buffer = Some(spare_buffer);
        self.spare_buffer2 = Some(spare_buffer2);
        sink
    }

    /// Streams the bytes of `iterator` into the sink `tx` through a
    /// double-buffered transfer, and gives the sink back. The bytes are staged
    /// in lines that are as large as the memory of the three buffers.
    pub fn stream_8b<I: ScanlinePixelSource<Item = u8>>(&mut self, tx: Vec<u8>, iterator: &mut I) -> (sink:
        Vec<u8>)
        requires
            old(self).wf(),
            old(iterator).valid(),
        ensures
            final(self).wf(),
            final(self).line_lengths() == old(self).line_lengths(),
            final(iterator).valid(),
            sink@ == tx@ + old(iterator).remaining(),
    {
        let spare_buffer = staging_line(self.spare_buffer.as_ref().unwrap());
        let spare_buffer2 = staging_line(self.spare_buffer2.as_ref().unwrap());
        let main_buffer = staging_line(self.main_buffer.as_ref().unwrap());
        let stream = DmaTransfer::new(tx, main_buffer, spare_buffer2);
        let (stream, _) = Self::compute_line(stream, spare_buffer, iterator);
        let (sink, _, _) = stream.free();
        sink
    }

    /// Reads `iterator` to its end and hands its items to `transfer`, line by
    /// line, starting with `buffer`; the last line may be partly filled.
    pub fn compute_line<DO: Copy, T: LineTransfer<Item = DO>, I: ScanlinePixelSource<Item = DO>>(
        transfer: T,
        buffer: Vec<DO>,
        iterator: &mut I,
    ) -> (parts: (T, Vec<DO>))
        requires
            transfer.ready(),
            0 < buffer@.len() <= u32::MAX,
            old(iterator).valid(),
        ensures
            parts.0.ready(),
            0 < parts.1@.len() <= u32::MAX,
            final(iterator).valid(),
            parts.0.sent() == transfer.sent() + old(iterator).remaining(),
    {
        let ghost pixels = iterator.remaining();
        let same = |pixel: DO| -> (word: DO)
            ensures
                word == pixel,
            { pixel };
        let parts = stream_mapped(transfer, buffer, iterator, same);
        proof {
            let words = choose|words: Seq<DO>|
                mapped(same, pixels, words) && parts.0.sent() == transfer.sent() + words;
            assert(words =~= pixels);
        }
        parts
    }

    /// Reads `iterator` to its end and hands what `f` makes of each word to
    /// `transfer`, line by line, starting with `buffer`; the last line may be
    /// partly filled.
    pub fn compute_line_u16<T: LineTransfer<Item = u16>, I: ScanlinePixelSource<Item = u16>, F: Fn(u16) -> u16>(
        transfer: T,
        buffer: Vec<u16>,
        iterator: &mut I,
        f: F,
    ) -> (parts: (T, Vec<u16>))
        requires
            transfer.ready(),
            0 < buffer@.len() <= u32::MAX,
            old(iterator).valid(),
            forall|pixel: u16| call_requires(f, (pixel,)),
        ensures
            parts.0.ready(),
            0 < parts.1@.len() <= u32::MAX,
            final(iterator).valid(),
            exists|words: Seq<u16>|
                mapped(f, old(iterator).remaining(), words) && parts.0.sent() == transfer.sent()
                    + words,
    {
        stream_mapped(transfer, buffer, iterator, f)
    }
}

/// Three scanline buffers of words of type `DO` that take turns: one is
/// filled while the transfer engine holds the other two.
pub struct Streamer<DO> {
    spare_buffer: Option<Vec<DO>>,
    spare_buffer2: Option<Vec<DO>>,
    main_buffer: Option<Vec<DO>>,
}

impl<DO: Copy> Streamer<DO> {
    /// The lengths of the three buffers: the one filled first, the spare one of
    /// the transfer, and the one that the transfer starts on.
    pub closed spec fn line_lengths(&self) -> (nat, nat, nat) {
        (
            self.spare_buffer->0@.len(),
            self.spare_buffer2->0@.len(),
            self.main_buffer->0@.len(),
        )
    }

    /// All three buffers are at hand, none is empty, and the length of each
    /// fits the word count of a transfer.
    pub closed spec fn wf(&self) -> bool {
        &&& self.spare_buffer is Some
        &&& self.spare_buffer2 is Some
        &&& self.main_buffer is Some
        &&& 0 < self.spare_buffer->0@.len() <= u32::MAX
        &&& 0 < self.spare_buffer2->0@.len() <= u32::MAX
        &&& 0 < self.main_buffer->0@.len() <= u32::MAX
    }

    /// A streamer over three buffers.
    pub fn new(spare_buffer: Vec<DO>, main_buffer: Vec<DO>, spare_buffer2: Vec<DO>) -> (streamer:
        Self)
        requires
            0 < spare_buffer@.len() <= u32::MAX,
            0 < main_buffer@.len() <= u32::MAX,
            0 < spare_buffer2@.len() <= u32::MAX,
        ensures
            streamer.wf(),
            streamer.line_lengths() == (
                spare_buffer@.len(),
                spare_buffer2@.len(),
                main_buffer@.len(),
            ),
    {
        Self {
            spare_buffer: Some(spare_buffer),
            spare_buffer2: Some(spare_buffer2),
            main_buffer: Some(main_buffer),
        }
    }

    /// Streams the pixels of `iterator`, each turned into `TS` words by
    /// `transformer`, into the sink `tx` through a double-buffered transfer,
    /// and gives the sink back.
    pub fn stream<DI, I: ScanlinePixelSource<Item = DI>, F: Fn(DI) -> [DO; TS], const TS: usize>(
        &mut self,
        tx: Vec<DO>,
        iterator: &mut I,
        transformer: F,
    ) -> (sink: Vec<DO>)
        requires
            old(self).wf(),
            old(iterator).valid(),
            forall|pixel: DI| call_requires(transformer, (pixel,)),
        ensures
            final(self).wf(),
            exists|outputs: Seq<[DO; TS]>|
                converted(transformer, old(iterator).remaining(), outputs) && sink@ == tx@
                    + flattened(outputs),
    {
        let spare_buffer = self.spare_buffer.take().unwrap();
        let spare_buffer2 = self.spare_buffer2.take().unwrap();
        let main_buffer = self.main_buffer.take().unwrap();
        let stream = DmaTransfer::new(tx, main_buffer, spare_buffer2);
        let sh = ScreenHandler::new(iterator, stream, spare_buffer, transformer);
        let (stream, spare_buffer) = sh.compute_line();
        let (sink, main_buffer, spare_buffer2) = stream.free();
        self.main_buffer = Some(main_buffer);
        self.spare_buffer = Some(spare_buffer);
        self.spare_buffer2 = Some(spare_buffer2);
        sink
    }
}

} // verus!
