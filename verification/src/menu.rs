//! Choosing a ROM from a list with the up, down, A and Start buttons.

use crate::util::LimitedViewList;
use vstd::prelude::*;

verus! {

/// For each button of the menu, whether its pin is low, which it is while the
/// button is held down.
#[derive(Clone, Copy, Debug, PartialEq, Eq)]
pub struct MenuButtons {
    pub up: bool,
    pub down: bool,
    pub a: bool,
    pub start: bool,
}

/// How a reading of the buttons ends.
#[derive(Clone, Copy, Debug, PartialEq, Eq)]
pub enum MenuResult {
    /// The menu stays open.
    Continue,
    /// The item at this position of the list was chosen.
    Chosen(usize),
    /// The menu was left without a choice.
    Cancelled,
}

/// What follows from a reading of the buttons: whether the list has to be
/// drawn again, and how the reading ends.
#[derive(Clone, Copy, Debug, PartialEq, Eq)]
pub struct MenuStep {
    pub redraw: bool,
    pub result: MenuResult,
}

/// The state of the menu as numbers: the start of the window, the marked line
/// of the window, whether a button press is still being held, and the sizes
/// of the list and of the window.
pub struct MenuView {
    pub cursor: int,
    pub selected: int,
    pub clicked: bool,
    pub len: int,
    pub window: int,
}

/// Whether a reading takes the up button: it is down and no press is held.
pub open spec fn up_taken(menu: MenuView, buttons: MenuButtons) -> bool {
    buttons.up && !menu.clicked
}

/// The menu after the up button has been looked at: the mark moves up a line,
/// or from the top line the window moves up an item.
pub open spec fn after_up(menu: MenuView, buttons: MenuButtons) -> MenuView {
    if !up_taken(menu, buttons) {
        menu
    } else if menu.selected != 0 {
        MenuView { selected: menu.selected - 1, clicked: true, ..menu }
    } else if menu.cursor != 0 {
        MenuView { cursor: menu.cursor - 1, clicked: true, ..menu }
    } else {
        MenuView { clicked: true, ..menu }
    }
}

/// Whether a reading takes the down button: it is down and no press is held,
/// not even that of the up button in the same reading.
pub open spec fn down_taken(menu: MenuView, buttons: MenuButtons) -> bool {
    buttons.down && !after_up(menu, buttons).clicked
}

/// The menu after both buttons have been looked at: for the down button the
/// mark moves down a line, or from the bottom line the window moves down an
/// item while items are left below it.
pub open spec fn after_down(menu: MenuView, buttons: MenuButtons) -> MenuView {
    let m = after_up(menu, buttons);
    if !down_taken(menu, buttons) {
        m
    } else if m.selected + 1 < m.window {
        MenuView { selected: m.selected + 1, clicked: true, ..m }
    } else if m.len - m.cursor > m.window {
        MenuView { cursor: m.cursor + 1, clicked: true, ..m }
    } else {
        MenuView { clicked: true, ..m }
    }
}

/// Whether a reading changes what the list shows.
pub open spec fn redraws(menu: MenuView, buttons: MenuButtons) -> bool {
    let m = after_up(menu, buttons);
    up_taken(menu, buttons) || (down_taken(menu, buttons) && (m.selected + 1 < m.window || m.len
        - m.cursor > m.window))
}

/// How a reading ends: A chooses the marked item, Start leaves the menu, and
/// A comes first.
pub open spec fn result_of(menu: MenuView, buttons: MenuButtons) -> MenuResult {
    let m = after_down(menu, buttons);
    if buttons.a {
        MenuResult::Chosen((m.cursor + m.selected) as usize)
    } else if buttons.start {
        MenuResult::Cancelled
    } else {
        MenuResult::Continue
    }
}

/// The menu after a reading. A press is held until a reading that leaves the
/// menu open finds both the up and the down button released.
pub open spec fn after_reading(menu: MenuView, buttons: MenuButtons) -> MenuView {
    let m = after_down(menu, buttons);
    if !buttons.a && !buttons.start && !buttons.down && !buttons.up {
        MenuView { clicked: false, ..m }
    } else {
        m
    }
}

/// A menu over a list, of which a window is shown with one line marked.
pub struct RomMenu<'a, T> {
    items: LimitedViewList<'a, T>,
    selected_rom: u8,
    button_clicked: bool,
}

impl<'a, T> RomMenu<'a, T> {
    /// The state of the menu as numbers.
    pub closed spec fn view(&self) -> MenuView {
        MenuView {
            cursor: self.items.cursor(),
            selected: self.selected_rom as int,
            clicked: self.button_clicked,
            len: self.items.items().len() as int,
            window: self.items.window(),
        }
    }

    /// The list that the menu offers.
    pub closed spec fn items(&self) -> Seq<T> {
        self.items.items()
    }

    /// The window lies within the list, has at most 255 lines, and the mark
    /// lies within the window or on its first line.
    pub open spec fn wf(&self) -> bool {
        &&& 0 <= self@.cursor
        &&& 0 <= self@.window <= 255
        &&& self@.cursor + self@.window <= self@.len
        &&& 0 <= self@.selected
        &&& self@.selected < self@.window || self@.selected == 0
    }

    /// A menu over `rom_list` that shows `max_items_to_display` items at a
    /// time, or all of them if there are fewer, with the first one marked.
    pub fn new(rom_list: &'a [T], max_items_to_display: usize) -> (menu: Self)
        requires
            max_items_to_display <= 255,
        ensures
            menu.wf(),
            menu.items() == rom_list@,
            menu@ == (MenuView {
                cursor: 0,
                selected: 0,
                clicked: false,
                len: rom_list@.len() as int,
                window: if max_items_to_display <= rom_list@.len() {
                    max_items_to_display as int
                } else {
                    rom_list@.len() as int
                },
            }),
    {
        Self {
            items: LimitedViewList::new(rom_list, max_items_to_display),
            selected_rom: 0,
            button_clicked: false,
        }
    }

    /// The items in the window.
    pub fn visible(&self) -> (items: &'a [T])
        requires
            self.wf(),
        ensures
            items@ == self.items().subrange(self@.cursor, self@.cursor + self@.window),
    {
        self.items.iter()
    }

    /// The marked line of the window.
    pub fn selected(&self) -> (selected: u8)
        ensures
            selected == self@.selected,
    {
        self.selected_rom
    }

    /// Takes a reading of the buttons: moves the mark or the window for the
    /// up or the down button, and says whether the list is to be drawn again
    /// and whether an item was chosen or the menu left.
    pub fn step(&mut self, buttons: MenuButtons) -> (step: MenuStep)
        requires
            old(self).wf(),
        ensures
            final(self).wf(),
            final(self).items() == old(self).items(),
            final(self)@ == after_reading(old(self)@, buttons),
            step.redraw == redraws(old(self)@, buttons),
            step.result == result_of(old(self)@, buttons),
    {
        let mut redraw = false;
        if buttons.up && !self.button_clicked {
            if self.selected_rom != 0 {
                self.selected_rom = self.selected_rom - 1;
            } else {
                self.items.prev();
            }
            redraw = true;
            self.button_clicked = true;
        }
        if buttons.down && !self.button_clicked {
            if (self.selected_rom as usize) + 1 < self.items.max() {
                self.selected_rom = self.selected_rom + 1;
                redraw = true;
            } else if (self.items.len() - self.items.current_cursor()) > self.items.max() {
                self.items.next();
                redraw = true;
            }
            self.button_clicked = true;
        }
        if buttons.a {
            let len = self.items.len();
            assert(self.items.cursor() + self.selected_rom <= len);
            return MenuStep {
                redraw,
                result: MenuResult::Chosen(self.items.current_cursor() + self.selected_rom as usize),
            };
        }
        if buttons.start {
            return MenuStep { redraw, result: MenuResult::Cancelled };
        }
        if !buttons.down && !buttons.up {
            self.button_clicked = false;
        }
        MenuStep { redraw, result: MenuResult::Continue }
    }
}

} // verus!
