//! The display link: a bus that is driven by one of two shift programs, one
//! for bytes and one for 16-bit words, and fed through the line streamer.

use crate::source::{ScanlinePixelSource, StoredPixels};
use crate::streamer::{mapped, DmaStreamer};
use vstd::prelude::*;

verus! {

/// Why the link did not take what it was given.
#[derive(Clone, Copy, Debug, PartialEq, Eq)]
pub enum DisplayError {
    /// The link has no way to send data of this form.
    DataFormatNotImplemented,
}

/// One unit on the bus: its value, whether it was shifted out as 16 bits or
/// as 8, and the level of the select line while it went out (high for data,
/// low for a command).
#[derive(Clone, Copy, Debug, PartialEq, Eq)]
pub struct BusWord {
    pub data: bool,
    pub wide: bool,
    pub value: u16,
}

/// What the link is asked to send.
pub enum DataFormat<'a, B, W> {
    /// Bytes.
    U8(&'a [u8]),
    /// 16-bit words as they are.
    U16(&'a [u16]),
    /// 16-bit words, to be sent in big-endian order.
    U16BE(&'a [u16]),
    /// 16-bit words, to be sent in little-endian order.
    U16LE(&'a [u16]),
    /// Bytes from a source.
    U8Iter(&'a mut B),
    /// 16-bit words from a source, to be sent in big-endian order.
    U16BEIter(&'a mut W),
    /// 16-bit words from a source, to be sent in little-endian order.
    U16LEIter(&'a mut W),
    /// Any other form.
    Other,
}

/// `word` with its two bytes exchanged.
pub open spec fn swapped(word: u16) -> u16 {
    ((word as int % 256) * 256 + word as int / 256) as u16
}

/// `sent` is `words` put into a byte order: each word went out as it is or
/// with its bytes exchanged.
pub open spec fn reordered(words: Seq<u16>, sent: Seq<u16>) -> bool {
    &&& sent.len() == words.len()
    &&& forall|k: int|
        0 <= k < words.len() ==> (#[trigger] sent[k] == words[k] || sent[k] == swapped(words[k]))
}

/// The bytes `bytes` as units on the bus, at select level `data`.
pub open spec fn framed_bytes(bytes: Seq<u8>, data: bool) -> Seq<BusWord> {
    Seq::new(bytes.len(), |k: int| BusWord { data, wide: false, value: bytes[k] as u16 })
}

/// The words `words` as units on the bus, at select level `data`.
pub open spec fn framed_words(words: Seq<u16>, data: bool) -> Seq<BusWord> {
    Seq::new(words.len(), |k: int| BusWord { data, wide: true, value: words[k] })
}

impl<'a, B: ScanlinePixelSource<Item = u8>, W: ScanlinePixelSource<Item = u16>> DataFormat<'a, B, W> {
    /// The sources that the data comes from can be asked.
    pub open spec fn wf(&self) -> bool {
        match self {
            DataFormat::U8Iter(iter) => iter.valid(),
            DataFormat::U16BEIter(iter) => iter.valid(),
            DataFormat::U16LEIter(iter) => iter.valid(),
            _ => true,
        }
    }

    /// Whether this data goes out as bytes.
    pub open spec fn is_bytes(&self) -> bool {
        self is U8 || self is U8Iter
    }

    /// Whether the units `sent`, at select level `data`, are what this data
    /// puts on the bus.
    pub open spec fn puts_on_bus(&self, data: bool, sent: Seq<BusWord>) -> bool {
        match self {
            DataFormat::U8(slice) => sent == framed_bytes(slice@, data),
            DataFormat::U16(slice) => sent == framed_words(slice@, data),
            DataFormat::U16BE(slice) => exists|words: Seq<u16>|
                reordered(slice@, words) && sent == framed_words(words, data),
            DataFormat::U16LE(slice) => exists|words: Seq<u16>|
                reordered(slice@, words) && sent == framed_words(words, data),
            DataFormat::U8Iter(iter) => sent == framed_bytes(iter.remaining(), data),
            DataFormat::U16BEIter(iter) => exists|words: Seq<u16>|
                reordered(iter.remaining(), words) && sent == framed_words(words, data),
            DataFormat::U16LEIter(iter) => exists|words: Seq<u16>|
                reordered(iter.remaining(), words) && sent == framed_words(words, data),
            DataFormat::Other => false,
        }
    }
}

/// Wraps `u16::to_le`: the word in little-endian order, which on a given
/// machine is the word itself or the word with its bytes exchanged.
#[verifier::external_body]
fn to_le(word: u16) -> (ordered: u16)
    ensures
        ordered == word || ordered == swapped(word),
{
    word.to_le()
}

/// Wraps `u16::to_be`: the word in big-endian order, which on a given machine
/// is the word itself or the word with its bytes exchanged.
#[verifier::external_body]
fn to_be(word: u16) -> (ordered: u16)
    ensures
        ordered == word || ordered == swapped(word),
{
    word.to_be()
}

/// A source over a copy of `items`.
fn stored<T: Copy>(items: &[T]) -> (source: StoredPixels<T>)
    ensures
        source.valid(),
        source.remaining() == items@,
{
    let mut copy: Vec<T> = Vec::new();
    let mut k: usize = 0;
    while k < items.len()
        invariant
            k <= items@.len(),
            copy@ == items@.take(k as int),
        decreases items@.len() - k,
    {
        copy.push(items[k]);
        proof {
            assert(copy@ =~= items@.take(k + 1));
        }
        k += 1;
    }
    proof {
        assert(items@.take(k as int) =~= items@);
    }
    StoredPixels::new(copy)
}

/// One shift program with the queue of what it has still to shift out.
pub struct PioContainer<W> {
    running: bool,
    tx: Vec<W>,
}

/// The two shift programs of the link, by which of them runs: the byte
/// program or the 16-bit program. The other one is stopped.
pub enum PioMode {
    ByteMode(PioContainer<u8>, PioContainer<u16>),
    HalfWordMode(PioContainer<u8>, PioContainer<u16>),
}

impl PioMode {
    /// The program that the mode names runs, and the other one does not.
    pub closed spec fn wf(&self) -> bool {
        match self {
            PioMode::ByteMode(byte_sm, half_word_sm) => byte_sm.running && !half_word_sm.running,
            PioMode::HalfWordMode(byte_sm, half_word_sm) => !byte_sm.running
                && half_word_sm.running,
        }
    }
}

/// The display link. It sends commands with the select line low and data with
/// the select line high, bytes through the byte program and 16-bit words
/// through the 16-bit program.
pub struct SpiPioDmaInterface {
    streamer: DmaStreamer,
    mode: Option<PioMode>,
    rs: bool,
    wire: Vec<BusWord>,
}

impl SpiPioDmaInterface {
    /// Whether the byte program is the one that runs.
    pub closed spec fn in_byte_mode(&self) -> bool {
        self.mode is Some && self.mode->0 is ByteMode
    }

    /// The level of the select line: high for data, low for commands.
    pub closed spec fn select_line(&self) -> bool {
        self.rs
    }

    /// Everything that has left the link, in order.
    pub closed spec fn shifted(&self) -> Seq<BusWord> {
        self.wire@
    }

    /// What the running program has still to shift out; it will leave at the
    /// present level of the select line.
    pub closed spec fn queued(&self) -> Seq<BusWord> {
        match self.mode {
            Some(PioMode::ByteMode(byte_sm, _)) => framed_bytes(byte_sm.tx@, self.rs),
            Some(PioMode::HalfWordMode(_, half_word_sm)) => framed_words(half_word_sm.tx@, self.rs),
            None => Seq::empty(),
        }
    }

    /// Everything that has left the link or is about to.
    pub open spec fn bus(&self) -> Seq<BusWord> {
        self.shifted() + self.queued()
    }

    /// Whether nothing waits to be shifted out.
    pub open spec fn idle(&self) -> bool {
        self.queued().len() == 0
    }

    /// One program runs, and the stopped program has nothing queued.
    pub closed spec fn wf(&self) -> bool {
        &&& self.streamer.wf()
        &&& self.mode is Some
        &&& self.mode->0.wf()
        &&& match self.mode->0 {
            PioMode::ByteMode(_, half_word_sm) => half_word_sm.tx@.len() == 0,
            PioMode::HalfWordMode(byte_sm, _) => byte_sm.tx@.len() == 0,
        }
    }

    /// A link that has sent nothing, with the byte program running and the
    /// select line low.
    pub fn new(streamer: DmaStreamer) -> (link: Self)
        requires
            streamer.wf(),
        ensures
            link.wf(),
            link.in_byte_mode(),
            !link.select_line(),
            link.shifted().len() == 0,
            link.idle(),
    {
        let byte_sm = PioContainer { running: true, tx: Vec::new() };
        let half_word_sm = PioContainer { running: false, tx: Vec::new() };
        Self {
            streamer,
            rs: false,
            mode: Some(PioMode::ByteMode(byte_sm, half_word_sm)),
            wire: Vec::new(),
        }
    }

    /// Makes the byte program the running one: stops the 16-bit program and
    /// starts the byte program, unless the byte program runs already.
    fn set_8bit_mode(pio_mode: PioMode) -> (programs: (PioContainer<u8>, PioContainer<u16>))
        requires
            pio_mode.wf(),
        ensures
            programs.0.running,
            !programs.1.running,
            match pio_mode {
                PioMode::ByteMode(byte_sm, half_word_sm) => programs == (byte_sm, half_word_sm),
                PioMode::HalfWordMode(byte_sm, half_word_sm) => {
                    &&& programs.0.tx == byte_sm.tx
                    &&& programs.1.tx == half_word_sm.tx
                },
            },
    {
        match pio_mode {
            PioMode::ByteMode(byte_sm, half_word_sm) => (byte_sm, half_word_sm),
            PioMode::HalfWordMode(byte_sm, half_word_sm) => {
                let half_word_sm = PioContainer { running: false, tx: half_word_sm.tx };
                let byte_sm = PioContainer { running: true, tx: byte_sm.tx };
                (byte_sm, half_word_sm)
            },
        }
    }

    /// Makes the 16-bit program the running one: stops the byte program and
    /// starts the 16-bit program, unless the 16-bit program runs already.
    fn set_16bit_mode(pio_mode: PioMode) -> (programs: (PioContainer<u8>, PioContainer<u16>))
        requires
            pio_mode.wf(),
        ensures
            !programs.0.running,
            programs.1.running,
            match pio_mode {
                PioMode::ByteMode(byte_sm, half_word_sm) => {
                    &&& programs.0.tx == byte_sm.tx
                    &&& programs.1.tx == half_word_sm.tx
                },
                PioMode::HalfWordMode(byte_sm, half_word_sm) => programs == (byte_sm, half_word_sm),
            },
    {
        match pio_mode {
            PioMode::ByteMode(byte_sm, half_word_sm) => {
                let byte_sm = PioContainer { running: false, tx: byte_sm.tx };
                let half_word_sm = PioContainer { running: true, tx: half_word_sm.tx };
                (byte_sm, half_word_sm)
            },
            PioMode::HalfWordMode(byte_sm, half_word_sm) => (byte_sm, half_word_sm),
        }
    }

    /// Whether the running program has shifted out all it was given.
    pub fn is_idle(&self) -> (is_idle: bool)
        requires
            self.wf(),
        ensures
            is_idle == self.idle(),
    {
        match &self.mode {
            Some(PioMode::ByteMode(byte_sm, _)) => byte_sm.tx.len() == 0,
            Some(PioMode::HalfWordMode(_, half_word_sm)) => half_word_sm.tx.len() == 0,
            None => true,
        }
    }

    /// Lets the running program shift out all that is queued.
    pub fn shift_out(&mut self)
        requires
            old(self).wf(),
        ensures
            final(self).wf(),
            final(self).idle(),
            final(self).shifted() == old(self).bus(),
            final(self).in_byte_mode() == old(self).in_byte_mode(),
            final(self).select_line() == old(self).select_line(),
    {
        let pio_mode = self.mode.take().unwrap();
        let ghost start = self.wire@;
        match pio_mode {
            PioMode::ByteMode(byte_sm, half_word_sm) => {
                let PioContainer { running: _, tx } = byte_sm;
                let mut k: usize = 0;
                while k < tx.len()
                    invariant
                        k <= tx@.len(),
                        self.rs == old(self).rs,
                        self.streamer == old(self).streamer,
                        self.mode is None,
                        self.wire@ == start + framed_bytes(tx@, self.rs).take(k as int),
                    decreases tx@.len() - k,
                {
                    self.wire.push(BusWord { data: self.rs, wide: false, value: tx[k] as u16 });
                    proof {
                        assert(self.wire@ =~= start + framed_bytes(tx@, self.rs).take(k + 1));
                    }
                    k += 1;
                }
                proof {
                    assert(framed_bytes(tx@, self.rs).take(k as int) =~= framed_bytes(tx@, self.rs));
                }
                self.mode = Some(
                    PioMode::ByteMode(PioContainer { running: true, tx: Vec::new() }, half_word_sm),
                );
            },
            PioMode::HalfWordMode(byte_sm, half_word_sm) => {
                let PioContainer { running: _, tx } = half_word_sm;
                let mut k: usize = 0;
                while k < tx.len()
                    invariant
                        k <= tx@.len(),
                        self.rs == old(self).rs,
                        self.streamer == old(self).streamer,
                        self.mode is None,
                        self.wire@ == start + framed_words(tx@, self.rs).take(k as int),
                    decreases tx@.len() - k,
                {
                    self.wire.push(BusWord { data: self.rs, wide: true, value: tx[k] });
                    proof {
                        assert(self.wire@ =~= start + framed_words(tx@, self.rs).take(k + 1));
                    }
                    k += 1;
                }
                proof {
                    assert(framed_words(tx@, self.rs).take(k as int) =~= framed_words(tx@, self.rs));
                }
                self.mode = Some(
                    PioMode::HalfWordMode(byte_sm, PioContainer { running: true, tx: Vec::new() }),
                );
            },
        }
    }

    /// Switches to the byte program and streams the bytes of `iterator` to it.
    fn send_bytes<I: ScanlinePixelSource<Item = u8>>(&mut self, iterator: &mut I)
        requires
            old(self).wf(),
            old(self).idle(),
            old(iterator).valid(),
        ensures
            final(self).wf(),
            final(iterator).valid(),
            final(self).in_byte_mode(),
            final(self).select_line() == old(self).select_line(),
            final(self).shifted() == old(self).shifted(),
            final(self).queued() == framed_bytes(old(iterator).remaining(), old(self).select_line()),
    {
        let pio_mode = self.mode.take().unwrap();
        let (byte_sm, half_word_sm) = Self::set_8bit_mode(pio_mode);
        let PioContainer { running, tx } = byte_sm;
        let ghost before = tx@;
        let tx = self.streamer.stream_8b(tx, iterator);
        proof {
            assert(before.len() == 0);
            assert(tx@ =~= old(iterator).remaining());
        }
        self.mode = Some(PioMode::ByteMode(PioContainer { running, tx }, half_word_sm));
    }

    /// Switches to the 16-bit program and streams the words of `iterator` to
    /// it, each passed through `f`.
    fn send_words<I: ScanlinePixelSource<Item = u16>, F: Fn(u16) -> u16>(
        &mut self,
        iterator: &mut I,
        f: F,
    )
        requires
            old(self).wf(),
            old(self).idle(),
            old(iterator).valid(),
            forall|word: u16| call_requires(f, (word,)),
        ensures
            final(self).wf(),
            final(iterator).valid(),
            !final(self).in_byte_mode(),
            final(self).select_line() == old(self).select_line(),
            final(self).shifted() == old(self).shifted(),
            exists|words: Seq<u16>|
                mapped(f, old(iterator).remaining(), words) && final(self).queued() == framed_words(
                    words,
                    old(self).select_line(),
                ),
    {
        let pio_mode = self.mode.take().unwrap();
        let (byte_sm, half_word_sm) = Self::set_16bit_mode(pio_mode);
        let PioContainer { running, tx } = half_word_sm;
        let ghost before = tx@;
        let tx = self.streamer.stream_16b(tx, iterator, f);
        let ghost words = choose|words: Seq<u16>|
            mapped(f, old(iterator).remaining(), words) && tx@ == before + words;
        proof {
            assert(before.len() == 0);
            assert(tx@ =~= words);
        }
        self.mode = Some(PioMode::HalfWordMode(byte_sm, PioContainer { running, tx }));
        proof {
            assert(mapped(f, old(iterator).remaining(), words));
            assert(self.queued() == framed_words(words, old(self).select_line()));
        }
    }

    /// Sends `words` at the present level of the select line: bytes through
    /// the byte program, 16-bit words through the 16-bit program, in the byte
    /// order that their form asks for. The link must be idle, since the
    /// programs are only exchanged while nothing is on its way.
    pub fn send_data<B: ScanlinePixelSource<Item = u8>, W: ScanlinePixelSource<Item = u16>>(
        &mut self,
        words: DataFormat<'_, B, W>,
    ) -> (result: Result<(), DisplayError>)
        requires
            old(self).wf(),
            old(self).idle(),
            words.wf(),
        ensures
            final(self).wf(),
            final(self).select_line() == old(self).select_line(),
            final(self).shifted() == old(self).shifted(),
            match result {
                Ok(_) => {
                    &&& !(words is Other)
                    &&& final(self).in_byte_mode() == words.is_bytes()
                    &&& words.puts_on_bus(old(self).select_line(), final(self).queued())
                },
                Err(e) => {
                    &&& words is Other
                    &&& e == DisplayError::DataFormatNotImplemented
                    &&& final(self).in_byte_mode() == old(self).in_byte_mode()
                    &&& final(self).queued() == old(self).queued()
                },
            },
    {
        let same = |word: u16| -> (ordered: u16)
            ensures
                ordered == word,
            { word };
        let little = |word: u16| -> (ordered: u16)
            ensures
                ordered == word || ordered == swapped(word),
            { to_le(word) };
        let big = |word: u16| -> (ordered: u16)
            ensures
                ordered == word || ordered == swapped(word),
            { to_be(word) };
        match words {
            DataFormat::U8(slice) => {
                let mut source = stored(slice);
                self.send_bytes(&mut source);
                Ok(())
            },
            DataFormat::U16(slice) => {
                let mut source = stored(slice);
                self.send_words(&mut source, same);
                proof {
                    let sent = choose|sent: Seq<u16>|
                        mapped(same, slice@, sent) && self.queued() == framed_words(
                            sent,
                            self.select_line(),
                        );
                    assert(sent =~= slice@);
                }
                Ok(())
            },
            DataFormat::U16LE(slice) => {
                let mut source = stored(slice);
                self.send_words(&mut source, little);
                proof {
                    let sent = choose|sent: Seq<u16>|
                        mapped(little, slice@, sent) && self.queued() == framed_words(
                            sent,
                            self.select_line(),
                        );
                    assert(reordered(slice@, sent));
                }
                Ok(())
            },
            DataFormat::U16BE(slice) => {
                let mut source = stored(slice);
                self.send_words(&mut source, big);
                proof {
                    let sent = choose|sent: Seq<u16>|
                        mapped(big, slice@, sent) && self.queued() == framed_words(
                            sent,
                            self.select_line(),
                        );
                    assert(reordered(slice@, sent));
                }
                Ok(())
            },
            DataFormat::U8Iter(iter) => {
                self.send_bytes(iter);
                Ok(())
            },
            DataFormat::U16LEIter(iter) => {
                let ghost pixels = iter.remaining();
                self.send_words(iter, little);
                proof {
                    let sent = choose|sent: Seq<u16>|
                        mapped(little, pixels, sent) && self.queued() == framed_words(
                            sent,
                            self.select_line(),
                        );
                    assert(reordered(pixels, sent));
                }
                Ok(())
            },
            DataFormat::U16BEIter(iter) => {
                let ghost pixels = iter.remaining();
                self.send_words(iter, big);
                proof {
                    let sent = choose|sent: Seq<u16>|
                        mapped(big, pixels, sent) && self.queued() == framed_words(
                            sent,
                            self.select_line(),
                        );
                    assert(reordered(pixels, sent));
                }
                Ok(())
            },
            DataFormat::Other => Err(DisplayError::DataFormatNotImplemented),
        }
    }

    /// Sends `cmd` as a command: waits until all that was sent before has left
    /// the link, pulls the select line low, and sends.
    pub fn send_commands<B: ScanlinePixelSource<Item = u8>, W: ScanlinePixelSource<Item = u16>>(
        &mut self,
        cmd: DataFormat<'_, B, W>,
    ) -> (result: Result<(), DisplayError>)
        requires
            old(self).wf(),
            cmd.wf(),
        ensures
            final(self).wf(),
            !final(self).select_line(),
            final(self).shifted() == old(self).bus(),
            match result {
                Ok(_) => {
                    &&& !(cmd is Other)
                    &&& final(self).in_byte_mode() == cmd.is_bytes()
                    &&& cmd.puts_on_bus(false, final(self).queued())
                },
                Err(e) => {
                    &&& cmd is Other
                    &&& e == DisplayError::DataFormatNotImplemented
                    &&& final(self).in_byte_mode() == old(self).in_byte_mode()
                    &&& final(self).idle()
                },
            },
    {
        while !self.is_idle()
            invariant
                self.wf(),
                self.bus() == old(self).bus(),
                self.in_byte_mode() == old(self).in_byte_mode(),
                self.select_line() == old(self).select_line(),
            decreases self.queued().len(),
        {
            self.shift_out();
        }
        proof {
            assert(self.shifted() =~= old(self).bus());
        }
        self.rs = false;
        self.send_data(cmd)
    }

    /// Sends `buf` as data: waits until all that was sent before has left the
    /// link, pulls the select line high, and sends.
    pub fn send_pixels<B: ScanlinePixelSource<Item = u8>, W: ScanlinePixelSource<Item = u16>>(
        &mut self,
        buf: DataFormat<'_, B, W>,
    ) -> (result: Result<(), DisplayError>)
        requires
            old(self).wf(),
            buf.wf(),
        ensures
            final(self).wf(),
            final(self).select_line(),
            final(self).shifted() == old(self).bus(),
            match result {
                Ok(_) => {
                    &&& !(buf is Other)
                    &&& final(self).in_byte_mode() == buf.is_bytes()
                    &&& buf.puts_on_bus(true, final(self).queued())
                },
                Err(e) => {
                    &&& buf is Other
                    &&& e == DisplayError::DataFormatNotImplemented
                    &&& final(self).in_byte_mode() == old(self).in_byte_mode()
                    &&& final(self).idle()
                },
            },
    {
        while !self.is_idle()
            invariant
                self.wf(),
                self.bus() == old(self).bus(),
                self.in_byte_mode() == old(self).in_byte_mode(),
                self.select_line() == old(self).select_line(),
            decreases self.queued().len(),
        {
            self.shift_out();
        }
        proof {
            assert(self.shifted() =~= old(self).bus());
        }
        self.rs = true;
        self.send_data(buf)
    }

    /// Everything that has left the link so far, in order.
    pub fn wire(&self) -> (wire: &Vec<BusWord>)
        ensures
            wire@ == self.shifted(),
    {
        &self.wire
    }
}

} // verus!
