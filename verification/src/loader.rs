//! Bringing a whole ROM into memory in chunks, and reading from a ROM that
//! lies in memory as one piece.

use vstd::prelude::*;

verus! {

/// The size of a flash sector in bytes.
pub const FLASH_SECTOR_SIZE: u32 = 0x1000;

/// The size of the chunks in which a ROM is read into memory.
pub const ROM_READ_BUFFER_SIZE: u32 = 0x4000;

/// The number of chunks of `chunk` bytes that `length` bytes take, the last
/// chunk perhaps not full.
pub fn chunk_count(length: u32, chunk: u32) -> (count: u32)
    requires
        0 < chunk,
    ensures
        count == (length + chunk - 1) / chunk as int,
        count as int * chunk >= length,
        length > 0 ==> (count - 1) * chunk < length,
{
    let mut offsets = length / chunk;
    if length % chunk != 0 {
        proof {
            let l = length as int;
            let c = chunk as int;
            assert(l / c < l) by (nonlinear_arith)
                requires
                    0 <= l,
                    0 < c,
                    l % c != 0,
            ;
        }
        offsets += 1;
    }
    proof {
        let l = length as int;
        let c = chunk as int;
        assert((l + c - 1) / c == if l % c == 0 {
            l / c
        } else {
            l / c + 1
        }) by (nonlinear_arith)
            requires
                0 <= l,
                0 < c,
        ;
        assert(l == (l / c) * c + l % c && 0 <= l % c < c) by (nonlinear_arith)
            requires
                0 <= l,
                0 < c,
        ;
        assert((l / c + 1) * c == (l / c) * c + c) by (nonlinear_arith);
        assert((l / c - 1) * c == (l / c) * c - c) by (nonlinear_arith);
    }
    offsets
}

/// Whether a ROM of `length` bytes has room in `room` bytes of memory.
pub fn rom_fits(length: u32, room: usize) -> (fits: bool)
    ensures
        fits == (length <= room),
{
    length as usize <= room
}

/// How far a load has come, in percent rounded down, when `done` of `total`
/// chunks are in.
pub fn load_progress(done: u32, total: u32) -> (percent: u8)
    requires
        done <= total,
        0 < total,
    ensures
        percent == done * 100 / total as int,
        percent <= 100,
{
    let scaled: u64 = done as u64 * 100;
    proof {
        let d = done as int;
        let t = total as int;
        assert(d * 100 / t <= 100) by (nonlinear_arith)
            requires
                0 <= d <= t,
                0 < t,
        ;
        assert(0 <= d * 100 / t) by (nonlinear_arith)
            requires
                0 <= d,
                0 < t,
        ;
    }
    (scaled / total as u64) as u8
}

/// A ROM that lies in memory as one piece and is read in place.
pub struct StaticRomManager {
    rom: Vec<u8>,
}

impl StaticRomManager {
    /// The bytes of the ROM.
    pub closed spec fn view(&self) -> Seq<u8> {
        self.rom@
    }

    /// A manager for the ROM `rom`.
    pub fn new(rom: Vec<u8>) -> (manager: Self)
        ensures
            manager@ == rom@,
    {
        Self { rom }
    }

    /// The byte `index` bytes behind `seek_offset`.
    pub fn read_from_offset(&self, seek_offset: usize, index: usize, _bank_number: u8) -> (byte: u8)
        requires
            seek_offset + index < self@.len(),
        ensures
            byte == self@[seek_offset + index],
    {
        let length = self.rom.len();
        let address = seek_offset + index;
        self.rom[address]
    }

    /// The byte at `index`.
    pub fn index(&self, index: usize) -> (byte: u8)
        requires
            index < self@.len(),
        ensures
            byte == self@[index as int],
    {
        self.rom[index]
    }
}

} // verus!
