//! The glue between the emulation core and the pixel stream: the scanline that
//! the core draws into, the walk over a finished scanline, and the buttons.

use vstd::prelude::*;

verus! {

/// The width of a scanline of the console in pixels.
pub const LINE_WIDTH: usize = 160;

/// The number of frames per second that the screen reports.
pub const FRAME_RATE: u8 = 30;

/// The 16-bit colour for the given 8-bit red, green and blue: five bits of
/// red, six of green and five of blue, from the top down.
pub open spec fn rgb565(red: u8, green: u8, blue: u8) -> int {
    (red as int / 8) * 2048 + (green as int / 4) * 32 + blue as int / 8
}

/// Packs a colour into 16 bits.
pub fn encode_rgb565(red: u8, green: u8, blue: u8) -> (encoded: u16)
    ensures
        encoded == rgb565(red, green, blue),
{
    let r: u16 = (red as u16 & 0b11111000) << 8;
    let g: u16 = (green as u16 & 0b11111100) << 3;
    let b: u16 = blue as u16 >> 3;
    proof {
        assert(((red as u16 & 0b11111000) << 8) == (red as u16 / 8) * 2048) by (bit_vector);
        assert(((green as u16 & 0b11111100) << 3) == (green as u16 / 4) * 32) by (bit_vector);
        assert((blue as u16 >> 3) == blue as u16 / 8) by (bit_vector);
    }
    r + g + b
}

/// The scanline that the emulation core draws into, with the two signals that
/// the core gives: a scanline is complete; the screen was switched on, which
/// ends the frame.
pub struct GameboyLineBufferDisplay {
    pub line_buffer: Vec<u16>,
    pub line_complete: bool,
    pub turn_off: bool,
}

impl GameboyLineBufferDisplay {
    /// The scanline is as wide as the console's screen.
    pub open spec fn wf(&self) -> bool {
        self.line_buffer@.len() == LINE_WIDTH
    }

    /// A black scanline with no signal given.
    pub fn new() -> (screen: Self)
        ensures
            screen.wf(),
            !screen.line_complete,
            !screen.turn_off,
            forall|x: int| 0 <= x < LINE_WIDTH ==> screen.line_buffer@[x] == 0,
    {
        let mut line_buffer: Vec<u16> = Vec::new();
        let mut x: usize = 0;
        while x < LINE_WIDTH
            invariant
                x <= LINE_WIDTH,
                line_buffer@.len() == x,
                forall|k: int| 0 <= k < x ==> line_buffer@[k] == 0,
            decreases LINE_WIDTH - x,
        {
            line_buffer.push(0);
            x += 1;
        }
        Self { line_buffer, line_complete: false, turn_off: false }
    }

    /// The screen was switched on: the frame in progress ends.
    pub fn turn_on(&mut self)
        ensures
            final(self).turn_off,
            final(self).line_buffer == old(self).line_buffer,
            final(self).line_complete == old(self).line_complete,
    {
        self.turn_off = true;
    }

    /// Sets the pixel in column `x` of the scanline to the given colour.
    pub fn set_pixel(&mut self, x: u8, _y: u8, red: u8, green: u8, blue: u8)
        requires
            old(self).wf(),
            x < LINE_WIDTH,
        ensures
            final(self).line_buffer@ == old(self).line_buffer@.update(
                x as int,
                rgb565(red, green, blue) as u16,
            ),
            final(self).line_complete == old(self).line_complete,
            final(self).turn_off == old(self).turn_off,
    {
        let encoded_color = encode_rgb565(red, green, blue);
        self.line_buffer.set(x as usize, encoded_color);
    }

    /// The core has drawn the whole scanline.
    pub fn scanline_complete(&mut self, _y: u8, _skip: bool)
        ensures
            final(self).line_complete,
            final(self).line_buffer == old(self).line_buffer,
            final(self).turn_off == old(self).turn_off,
    {
        self.line_complete = true;
    }

    /// The number of frames per second.
    pub fn frame_rate(&self) -> (rate: u8)
        ensures
            rate == FRAME_RATE,
    {
        FRAME_RATE
    }
}

/// What the pixel source does next.
#[derive(Clone, Copy, Debug, PartialEq, Eq)]
pub enum EmulationStep {
    /// The frame has ended: the stream of pixels ends here.
    EndOfFrame,
    /// The next pixel of the scanline. With `poll_buttons` the scanline is
    /// through, and the buttons are to be read before the core goes on.
    Pixel { pixel: u16, poll_buttons: bool },
    /// No scanline is ready: the core is to run for one more step.
    Tick,
}

/// The walk over the scanlines that the emulation core completes, pixel by
/// pixel.
pub struct GameEmulationHandler {
    current_line_index: usize,
}

impl GameEmulationHandler {
    /// The column of the pixel that is handed out next.
    pub closed spec fn column(&self) -> int {
        self.current_line_index as int
    }

    /// The column lies on the scanline.
    pub open spec fn wf(&self) -> bool {
        0 <= self.column() < LINE_WIDTH
    }

    /// A walk that starts at the left end of a scanline.
    pub fn new() -> (handler: Self)
        ensures
            handler.wf(),
            handler.column() == 0,
    {
        Self { current_line_index: 0 }
    }

    /// Decides what comes next. A frame that has ended takes precedence and
    /// its signal is cleared. Else, while a scanline is complete, its pixels
    /// are handed out from left to right, and with the last one the scanline
    /// is given back to the core. Else the core has to run on.
    pub fn step(&mut self, screen: &mut GameboyLineBufferDisplay) -> (step: EmulationStep)
        requires
            old(self).wf(),
            old(screen).wf(),
        ensures
            final(self).wf(),
            final(screen).wf(),
            final(screen).line_buffer == old(screen).line_buffer,
            old(screen).turn_off ==> {
                &&& step == EmulationStep::EndOfFrame
                &&& !final(screen).turn_off
                &&& final(screen).line_complete == old(screen).line_complete
                &&& final(self).column() == old(self).column()
            },
            !old(screen).turn_off && old(screen).line_complete ==> {
                &&& step == (EmulationStep::Pixel {
                    pixel: old(screen).line_buffer@[old(self).column()],
                    poll_buttons: old(self).column() + 1 == LINE_WIDTH,
                })
                &&& !final(screen).turn_off
                &&& final(screen).line_complete == (old(self).column() + 1 < LINE_WIDTH)
                &&& final(self).column() == if old(self).column() + 1 < LINE_WIDTH {
                    old(self).column() + 1
                } else {
                    0
                }
            },
            !old(screen).turn_off && !old(screen).line_complete ==> {
                &&& step == EmulationStep::Tick
                &&& *final(screen) == *old(screen)
                &&& final(self).column() == old(self).column()
            },
    {
        if screen.turn_off {
            screen.turn_off = false;
            return EmulationStep::EndOfFrame;
        }
        if screen.line_complete {
            let pixel = screen.line_buffer[self.current_line_index];
            if self.current_line_index + 1 >= LINE_WIDTH {
                self.current_line_index = 0;
                screen.line_complete = false;
                EmulationStep::Pixel { pixel, poll_buttons: true }
            } else {
                self.current_line_index = self.current_line_index + 1;
                EmulationStep::Pixel { pixel, poll_buttons: false }
            }
        } else {
            EmulationStep::Tick
        }
    }
}

} // verus!
