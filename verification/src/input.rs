//! The eight buttons of the console: turning the levels of their pins into
//! presses and releases.

use vstd::prelude::*;

verus! {

/// A button of the console.
#[derive(Clone, Copy, Debug, PartialEq, Eq)]
pub enum Button {
    A,
    B,
    Start,
    Select,
    Up,
    Down,
    Left,
    Right,
}

/// A change of a button.
#[derive(Clone, Copy, Debug, PartialEq, Eq)]
pub enum KeyEvent {
    Pressed(Button),
    Released(Button),
}

/// For each button, whether its pin is low, which it is while the button is
/// held down.
#[derive(Clone, Copy, Debug, PartialEq, Eq)]
pub struct ButtonLevels {
    pub a: bool,
    pub b: bool,
    pub start: bool,
    pub select: bool,
    pub up: bool,
    pub down: bool,
    pub left: bool,
    pub right: bool,
}

/// What a button gives rise to when its pin is read: a press when it is held
/// down and was not, a release when it is not held down and was, else nothing.
#[verifier::opaque]
pub open spec fn change_of(button: Button, was_down: bool, is_low: bool) -> Seq<KeyEvent> {
    if is_low && !was_down {
        seq![KeyEvent::Pressed(button)]
    } else if !is_low && was_down {
        seq![KeyEvent::Released(button)]
    } else {
        Seq::empty()
    }
}

/// The changes of all buttons for one reading of the pins, in the order in
/// which the buttons are read: B, A, Select, Start, Up, Down, Left, Right.
pub open spec fn changes_of(before: ButtonLevels, levels: ButtonLevels) -> Seq<KeyEvent> {
    Seq::<KeyEvent>::empty() + change_of(Button::B, before.b, levels.b) + change_of(
        Button::A,
        before.a,
        levels.a,
    )
        + change_of(Button::Select, before.select, levels.select) + change_of(
        Button::Start,
        before.start,
        levels.start,
    ) + change_of(Button::Up, before.up, levels.up) + change_of(
        Button::Down,
        before.down,
        levels.down,
    ) + change_of(Button::Left, before.left, levels.left) + change_of(
        Button::Right,
        before.right,
        levels.right,
    )
}

/// Notes the change of one button, if there is one.
fn note_change(events: &mut Vec<KeyEvent>, button: Button, was_down: bool, is_low: bool)
    ensures
        final(events)@ == old(events)@ + change_of(button, was_down, is_low),
{
    if is_low {
        if !was_down {
            events.push(KeyEvent::Pressed(button));
        }
    } else {
        if was_down {
            events.push(KeyEvent::Released(button));
        }
    }
    proof {
        reveal(change_of);
        assert(events@ =~= old(events)@ + change_of(button, was_down, is_low));
    }
}

/// The presses and releases that lie between two readings of the pins.
pub fn button_changes(before: ButtonLevels, levels: ButtonLevels) -> (events: Vec<KeyEvent>)
    ensures
        events@ == changes_of(before, levels),
{
    let mut events: Vec<KeyEvent> = Vec::new();
    note_change(&mut events, Button::B, before.b, levels.b);
    note_change(&mut events, Button::A, before.a, levels.a);
    note_change(&mut events, Button::Select, before.select, levels.select);
    note_change(&mut events, Button::Start, before.start, levels.start);
    note_change(&mut events, Button::Up, before.up, levels.up);
    note_change(&mut events, Button::Down, before.down, levels.down);
    note_change(&mut events, Button::Left, before.left, levels.left);
    note_change(&mut events, Button::Right, before.right, levels.right);
    events
}

/// The buttons as they were when their pins were last read.
pub struct InputButtonMapper {
    state: ButtonLevels,
}

impl InputButtonMapper {
    /// Which buttons were held down at the last reading.
    pub closed spec fn held(&self) -> ButtonLevels {
        self.state
    }

    /// A mapper for buttons that are all up.
    pub fn new() -> (mapper: Self)
        ensures
            mapper.held() == (ButtonLevels {
                a: false,
                b: false,
                start: false,
                select: false,
                up: false,
                down: false,
                left: false,
                right: false,
            }),
    {
        Self {
            state: ButtonLevels {
                a: false,
                b: false,
                start: false,
                select: false,
                up: false,
                down: false,
                left: false,
                right: false,
            },
        }
    }

    /// Takes a reading of the pins and gives the presses and releases that it
    /// shows, for the emulation core to be told of in this order.
    pub fn handle_button_clicks(&mut self, levels: ButtonLevels) -> (events: Vec<KeyEvent>)
        ensures
            events@ == changes_of(old(self).held(), levels),
            final(self).held() == levels,
    {
        let events = button_changes(self.state, levels);
        self.state = levels;
        events
    }
}

} // verus!
