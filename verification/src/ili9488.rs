//! The ILI9488 display controller in its 16-bit colour mode: the size of its
//! frame and the commands that start it.

use vstd::prelude::*;

verus! {

/// The controller with 16-bit colours.
pub struct ILI9488Rgb565;

/// The width and the height of the controller's frame in pixels.
pub const FRAMEBUFFER_SIZE: (u16, u16) = (240, 320);

/// The pixel format byte for 16 bits per pixel on both interfaces.
pub const PIXEL_FORMAT_RGB565: u8 = 0x55;

/// One step of bringing the controller up.
#[derive(Clone, Copy, Debug, PartialEq, Eq)]
pub enum InitStep {
    /// Send the instruction, with its parameter byte if it has one.
    Command { instruction: u8, parameter: Option<u8> },
    /// Wait for so many microseconds.
    DelayUs(u32),
}

/// The instruction that switches colour inversion on or off.
pub open spec fn inversion_instruction(invert_colors: bool) -> u8 {
    if invert_colors {
        0x21
    } else {
        0x20
    }
}

/// The steps that set the controller up once it has been reset: address
/// mode, display inversion control, colour inversion, pixel format, normal
/// mode, then sleep out and display on, each after its wait.
pub open spec fn common_steps(madctl: u8, invert_colors: bool, pixel_format: u8) -> Seq<InitStep> {
    seq![
        InitStep::Command { instruction: 0x36, parameter: Some(madctl) },
        InitStep::Command { instruction: 0xB4, parameter: Some(0x0u8) },
        InitStep::Command { instruction: inversion_instruction(invert_colors), parameter: None },
        InitStep::Command { instruction: 0x3A, parameter: Some(pixel_format) },
        InitStep::Command { instruction: 0x13, parameter: None },
        InitStep::DelayUs(120_000),
        InitStep::Command { instruction: 0x11, parameter: None },
        InitStep::DelayUs(140_000),
        InitStep::Command { instruction: 0x29, parameter: None },
    ]
}

/// The steps that set the controller up once it has been reset.
pub fn init_common(madctl: u8, invert_colors: bool, pixel_format: u8) -> (steps: Vec<InitStep>)
    ensures
        steps@ == common_steps(madctl, invert_colors, pixel_format),
{
    let inv_cmd: u8 = if invert_colors {
        0x21
    } else {
        0x20
    };
    let mut steps: Vec<InitStep> = Vec::new();
    steps.push(InitStep::Command { instruction: 0x36, parameter: Some(madctl) });
    steps.push(InitStep::Command { instruction: 0xB4, parameter: Some(0x0) });
    steps.push(InitStep::Command { instruction: inv_cmd, parameter: None });
    steps.push(InitStep::Command { instruction: 0x3A, parameter: Some(pixel_format) });
    steps.push(InitStep::Command { instruction: 0x13, parameter: None });
    steps.push(InitStep::DelayUs(120_000));
    steps.push(InitStep::Command { instruction: 0x11, parameter: None });
    steps.push(InitStep::DelayUs(140_000));
    steps.push(InitStep::Command { instruction: 0x29, parameter: None });
    proof {
        assert(steps@ =~= common_steps(madctl, invert_colors, pixel_format));
    }
    steps
}

impl ILI9488Rgb565 {
    /// All the steps that bring the controller up: a software reset and its
    /// wait, then the common steps with the 16-bit pixel format.
    pub fn init(&mut self, madctl: u8, invert_colors: bool) -> (steps: Vec<InitStep>)
        ensures
            steps@ == seq![
                InitStep::Command { instruction: 0x01, parameter: None },
                InitStep::DelayUs(5_000),
            ] + common_steps(madctl, invert_colors, PIXEL_FORMAT_RGB565),
    {
        let mut steps: Vec<InitStep> = Vec::new();
        steps.push(InitStep::Command { instruction: 0x01, parameter: None });
        steps.push(InitStep::DelayUs(5_000));
        let mut common = init_common(madctl, invert_colors, PIXEL_FORMAT_RGB565);
        steps.append(&mut common);
        proof {
            assert(steps@ =~= seq![
                InitStep::Command { instruction: 0x01, parameter: None },
                InitStep::DelayUs(5_000),
            ] + common_steps(madctl, invert_colors, PIXEL_FORMAT_RGB565));
        }
        steps
    }
}

} // verus!
