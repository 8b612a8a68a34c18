use handheld_core::audio::{combine_u16_to_u32, pack_frames, NullAudioPlayer};
use handheld_core::emulation::{
    encode_rgb565, EmulationStep, GameEmulationHandler, GameboyLineBufferDisplay, LINE_WIDTH,
};
use handheld_core::ili9488::{init_common, ILI9488Rgb565, InitStep, FRAMEBUFFER_SIZE};
use handheld_core::input::{button_changes, Button, ButtonLevels, InputButtonMapper, KeyEvent};
use handheld_core::loader::{chunk_count, load_progress, rom_fits, StaticRomManager};
use handheld_core::menu::{MenuButtons, MenuResult, MenuStep, RomMenu};
use handheld_core::spi_device::{
    transaction, BusStep, DeviceError, DeviceErrorKind, NoDelay, Operation,
};
use handheld_core::util::{DummyOutputPin, LimitedViewList};

const NONE: MenuButtons = MenuButtons { up: false, down: false, a: false, start: false };
const UP: MenuButtons = MenuButtons { up: true, down: false, a: false, start: false };
const DOWN: MenuButtons = MenuButtons { up: false, down: true, a: false, start: false };
const A: MenuButtons = MenuButtons { up: false, down: false, a: true, start: false };
const START: MenuButtons = MenuButtons { up: false, down: false, a: false, start: true };

fn released() -> ButtonLevels {
    ButtonLevels {
        a: false,
        b: false,
        start: false,
        select: false,
        up: false,
        down: false,
        left: false,
        right: false,
    }
}

#[test]
fn limited_view_list_window() {
    let list = [1, 2, 3, 4, 5];
    let mut view = LimitedViewList::new(&list, 3);
    assert_eq!(view.max(), 3);
    assert_eq!(view.len(), 5);
    assert_eq!(view.current_cursor(), 0);
    assert_eq!(view.iter(), &[1, 2, 3]);
    view.prev();
    assert_eq!(view.current_cursor(), 0);
    view.next();
    view.next();
    assert_eq!(view.current_cursor(), 2);
    assert_eq!(view.iter(), &[3, 4, 5]);
    view.prev();
    assert_eq!(view.iter(), &[2, 3, 4]);
}

#[test]
fn limited_view_list_caps_window_and_cursor() {
    let list = [1, 2];
    let mut view = LimitedViewList::new(&list, 9);
    assert_eq!(view.max(), 2);
    assert_eq!(view.iter(), &[1, 2]);
    view.next();
    view.next();
    view.next();
    assert_eq!(view.current_cursor(), 2);
    let empty: [u8; 0] = [];
    let view = LimitedViewList::new(&empty, 4);
    assert_eq!(view.max(), 0);
    assert_eq!(view.iter(), &[] as &[u8]);
}

#[test]
fn dummy_pin_accepts_everything() {
    let mut pin = DummyOutputPin::default();
    assert_eq!(pin.set_low(), Ok(()));
    assert_eq!(pin.set_high(), Ok(()));
    assert_eq!(pin.set_state(true), Ok(()));
}

#[test]
fn device_error_kinds() {
    let bus: DeviceError<u8, u8> = DeviceError::Spi(1);
    let cs: DeviceError<u8, u8> = DeviceError::Cs(2);
    assert_eq!(bus.kind(), DeviceErrorKind::Bus);
    assert_eq!(cs.kind(), DeviceErrorKind::ChipSelectFault);
    assert_eq!(NoDelay, NoDelay);
}

#[test]
fn null_audio_player_is_silent() {
    let mut player = NullAudioPlayer;
    player.play(&[1, 2, 3]);
    assert_eq!(player.samples_rate(), 5512);
    assert!(!player.underflowed());
}

#[test]
fn combine_puts_high_above_low() {
    assert_eq!(combine_u16_to_u32(0x1234, 0xABCD), 0x1234_ABCD);
    assert_eq!(combine_u16_to_u32(0, 0xFFFF), 0xFFFF);
    assert_eq!(combine_u16_to_u32(0xFFFF, 0), 0xFFFF_0000);
}

#[test]
fn rgb565_exact_values() {
    assert_eq!(encode_rgb565(0xFF, 0xFF, 0xFF), 0xFFFF);
    assert_eq!(encode_rgb565(0, 0, 0), 0);
    assert_eq!(encode_rgb565(0xFF, 0, 0), 0xF800);
    assert_eq!(encode_rgb565(0, 0xFF, 0), 0x07E0);
    assert_eq!(encode_rgb565(0, 0, 0xFF), 0x001F);
    assert_eq!(encode_rgb565(0x12, 0x34, 0x56), 0x11AA);
}

#[test]
fn scanline_walk_hands_out_a_line_then_ticks() {
    let mut screen = GameboyLineBufferDisplay::new();
    let mut handler = GameEmulationHandler::new();
    assert_eq!(screen.frame_rate(), 30);
    assert_eq!(handler.step(&mut screen), EmulationStep::Tick);
    for x in 0..LINE_WIDTH {
        screen.set_pixel(x as u8, 0, (x as u8) << 3, 0, 0);
    }
    screen.scanline_complete(0, false);
    for x in 0..LINE_WIDTH {
        let expected = encode_rgb565((x as u8) << 3, 0, 0);
        assert_eq!(
            handler.step(&mut screen),
            EmulationStep::Pixel { pixel: expected, poll_buttons: x + 1 == LINE_WIDTH }
        );
    }
    assert!(!screen.line_complete);
    assert_eq!(handler.step(&mut screen), EmulationStep::Tick);
}

#[test]
fn frame_end_takes_precedence() {
    let mut screen = GameboyLineBufferDisplay::new();
    let mut handler = GameEmulationHandler::new();
    screen.scanline_complete(0, false);
    screen.turn_on();
    assert_eq!(handler.step(&mut screen), EmulationStep::EndOfFrame);
    assert!(!screen.turn_off);
    assert_eq!(handler.step(&mut screen), EmulationStep::Pixel { pixel: 0, poll_buttons: false });
}

#[test]
fn buttons_report_presses_and_releases_in_order() {
    let mut mapper = InputButtonMapper::new();
    let mut levels = released();
    levels.a = true;
    levels.b = true;
    levels.right = true;
    assert_eq!(
        mapper.handle_button_clicks(levels),
        vec![
            KeyEvent::Pressed(Button::B),
            KeyEvent::Pressed(Button::A),
            KeyEvent::Pressed(Button::Right)
        ]
    );
    assert_eq!(mapper.handle_button_clicks(levels), vec![]);
    levels.a = false;
    levels.start = true;
    assert_eq!(
        mapper.handle_button_clicks(levels),
        vec![KeyEvent::Released(Button::A), KeyEvent::Pressed(Button::Start)]
    );
    assert_eq!(
        mapper.handle_button_clicks(released()),
        vec![
            KeyEvent::Released(Button::B),
            KeyEvent::Released(Button::Start),
            KeyEvent::Released(Button::Right)
        ]
    );
}

#[test]
fn button_changes_cover_all_buttons() {
    let all = ButtonLevels {
        a: true,
        b: true,
        start: true,
        select: true,
        up: true,
        down: true,
        left: true,
        right: true,
    };
    assert_eq!(
        button_changes(released(), all),
        vec![
            KeyEvent::Pressed(Button::B),
            KeyEvent::Pressed(Button::A),
            KeyEvent::Pressed(Button::Select),
            KeyEvent::Pressed(Button::Start),
            KeyEvent::Pressed(Button::Up),
            KeyEvent::Pressed(Button::Down),
            KeyEvent::Pressed(Button::Left),
            KeyEvent::Pressed(Button::Right)
        ]
    );
    assert_eq!(button_changes(all, all), vec![]);
}

#[test]
fn chunk_counts_round_up() {
    assert_eq!(chunk_count(0, 4096), 0);
    assert_eq!(chunk_count(1, 4096), 1);
    assert_eq!(chunk_count(4096, 4096), 1);
    assert_eq!(chunk_count(4097, 4096), 2);
    assert_eq!(chunk_count(u32::MAX, 1), u32::MAX);
    assert_eq!(chunk_count(u32::MAX, 2), 0x8000_0000);
    assert_eq!(chunk_count(1024 * 1024, 16384), 64);
}

#[test]
fn rom_fits_and_progress() {
    assert!(rom_fits(1024, 1024));
    assert!(!rom_fits(1025, 1024));
    assert_eq!(load_progress(0, 64), 0);
    assert_eq!(load_progress(1, 3), 33);
    assert_eq!(load_progress(63, 64), 98);
    assert_eq!(load_progress(64, 64), 100);
    assert_eq!(load_progress(u32::MAX, u32::MAX), 100);
}

#[test]
fn static_rom_reads_in_place() {
    let rom = StaticRomManager::new((0..=255u8).collect());
    assert_eq!(rom.read_from_offset(0x40, 3, 9), 0x43);
    assert_eq!(rom.index(255), 255);
}

#[test]
fn display_controller_start_sequence() {
    assert_eq!(FRAMEBUFFER_SIZE, (240, 320));
    let steps = init_common(0x48, true, 0x55);
    assert_eq!(
        steps,
        vec![
            InitStep::Command { instruction: 0x36, parameter: Some(0x48) },
            InitStep::Command { instruction: 0xB4, parameter: Some(0) },
            InitStep::Command { instruction: 0x21, parameter: None },
            InitStep::Command { instruction: 0x3A, parameter: Some(0x55) },
            InitStep::Command { instruction: 0x13, parameter: None },
            InitStep::DelayUs(120_000),
            InitStep::Command { instruction: 0x11, parameter: None },
            InitStep::DelayUs(140_000),
            InitStep::Command { instruction: 0x29, parameter: None },
        ]
    );
    let all = ILI9488Rgb565.init(0, false);
    assert_eq!(all.len(), 11);
    assert_eq!(all[0], InitStep::Command { instruction: 0x01, parameter: None });
    assert_eq!(all[1], InitStep::DelayUs(5_000));
    assert_eq!(all[4], InitStep::Command { instruction: 0x20, parameter: None });
    assert_eq!(&all[2..], &init_common(0, false, 0x55)[..]);
}

#[test]
fn menu_moves_mark_then_window() {
    let roms = ["a", "b", "c", "d", "e"];
    let mut menu = RomMenu::new(&roms, 3);
    assert_eq!(menu.visible(), &["a", "b", "c"]);
    assert_eq!(menu.step(DOWN), MenuStep { redraw: true, result: MenuResult::Continue });
    assert_eq!(menu.selected(), 1);
    assert_eq!(menu.step(DOWN), MenuStep { redraw: false, result: MenuResult::Continue });
    assert_eq!(menu.selected(), 1);
    menu.step(NONE);
    menu.step(DOWN);
    menu.step(NONE);
    assert_eq!(menu.selected(), 2);
    assert_eq!(menu.step(DOWN), MenuStep { redraw: true, result: MenuResult::Continue });
    assert_eq!(menu.selected(), 2);
    assert_eq!(menu.visible(), &["b", "c", "d"]);
    menu.step(NONE);
    menu.step(DOWN);
    menu.step(NONE);
    assert_eq!(menu.visible(), &["c", "d", "e"]);
    assert_eq!(menu.step(DOWN), MenuStep { redraw: false, result: MenuResult::Continue });
    menu.step(NONE);
    assert_eq!(menu.step(A), MenuStep { redraw: false, result: MenuResult::Chosen(4) });
}

#[test]
fn menu_up_and_cancel() {
    let roms = ["a", "b", "c", "d"];
    let mut menu = RomMenu::new(&roms, 2);
    assert_eq!(menu.step(UP), MenuStep { redraw: true, result: MenuResult::Continue });
    assert_eq!(menu.visible(), &["a", "b"]);
    menu.step(NONE);
    menu.step(DOWN);
    menu.step(NONE);
    menu.step(DOWN);
    menu.step(NONE);
    assert_eq!(menu.visible(), &["b", "c"]);
    assert_eq!(menu.selected(), 1);
    menu.step(UP);
    menu.step(NONE);
    assert_eq!(menu.selected(), 0);
    menu.step(UP);
    assert_eq!(menu.visible(), &["a", "b"]);
    assert_eq!(menu.step(START), MenuStep { redraw: false, result: MenuResult::Cancelled });
    let both = MenuButtons { up: false, down: false, a: true, start: true };
    assert_eq!(menu.step(both).result, MenuResult::Chosen(0));
}

#[test]
fn frames_are_packed_and_repeated_eight_times() {
    let words = pack_frames(&[0x0001, 0x0002, 0xFFFF, 0x8000]);
    assert_eq!(words.len(), 16);
    for k in 0..8 {
        assert_eq!(words[k], 0x0001_0002);
        assert_eq!(words[8 + k], 0xFFFF_8000);
    }
    assert_eq!(pack_frames(&[]), Vec::<u32>::new());
}

#[test]
fn transaction_frames_operations_with_the_select_line() {
    let steps = transaction(&[
        Operation::Write,
        Operation::DelayNs(100),
        Operation::Read,
        Operation::Transfer,
        Operation::TransferInPlace,
    ]);
    assert_eq!(
        steps,
        vec![
            BusStep::SelectLow,
            BusStep::Bus(Operation::Write),
            BusStep::Bus(Operation::Read),
            BusStep::Bus(Operation::Transfer),
            BusStep::Bus(Operation::TransferInPlace),
            BusStep::SelectHigh
        ]
    );
    assert_eq!(transaction(&[]), vec![BusStep::SelectLow, BusStep::SelectHigh]);
}
