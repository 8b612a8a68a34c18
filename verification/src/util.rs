//! Small helpers: a window that slides over a list, and an output pin that
//! leads nowhere.

use vstd::prelude::*;
use vstd::slice::slice_subrange;

verus! {

/// An output pin that is not connected: every level is accepted and nothing
/// happens.
#[derive(Default)]
pub struct DummyOutputPin;

impl DummyOutputPin {
    /// Drives the pin low.
    pub fn set_low(&mut self) -> (result: Result<(), ()>)
        ensures
            result.is_ok(),
    {
        Ok(())
    }

    /// Drives the pin high.
    pub fn set_high(&mut self) -> (result: Result<(), ()>)
        ensures
            result.is_ok(),
    {
        Ok(())
    }

    /// Drives the pin high or low.
    pub fn set_state(&mut self, _high: bool) -> (result: Result<(), ()>)
        ensures
            result.is_ok(),
    {
        Ok(())
    }
}

/// A window of at most `max` items onto a list, which starts at a cursor that
/// can be moved up and down the list.
pub struct LimitedViewList<'a, T> {
    list: &'a [T],
    max: usize,
    current_cursor: usize,
}

impl<'a, T> LimitedViewList<'a, T> {
    /// The whole list.
    pub closed spec fn items(&self) -> Seq<T> {
        self.list@
    }

    /// The position at which the window starts.
    pub closed spec fn cursor(&self) -> int {
        self.current_cursor as int
    }

    /// The number of items in the window.
    pub closed spec fn window(&self) -> int {
        self.max as int
    }

    /// The cursor lies within the list or at its end, and the window is not
    /// larger than the list.
    pub open spec fn wf(&self) -> bool {
        0 <= self.cursor() <= self.items().len() && 0 <= self.window() <= self.items().len()
    }

    /// A window of `max` items, or of the whole list if that is shorter, at
    /// the start of `list`.
    pub fn new(list: &'a [T], max: usize) -> (view: Self)
        ensures
            view.wf(),
            view.items() == list@,
            view.cursor() == 0,
            view.window() == if max <= list@.len() {
                max as int
            } else {
                list@.len() as int
            },
    {
        let len = list.len();
        Self { list, max: if max <= len { max } else { len }, current_cursor: 0 }
    }

    /// Moves the cursor one item down, unless it is at the end of the list.
    pub fn next(&mut self)
        requires
            old(self).wf(),
        ensures
            final(self).wf(),
            final(self).items() == old(self).items(),
            final(self).window() == old(self).window(),
            final(self).cursor() == if old(self).cursor() < old(self).items().len() {
                old(self).cursor() + 1
            } else {
                old(self).cursor()
            },
    {
        if self.current_cursor < self.list.len() {
            self.current_cursor += 1;
        }
    }

    /// The position at which the window starts.
    pub fn current_cursor(&self) -> (cursor: usize)
        ensures
            cursor == self.cursor(),
    {
        self.current_cursor
    }

    /// The number of items in the window.
    pub fn max(&self) -> (max: usize)
        ensures
            max == self.window(),
    {
        self.max
    }

    /// The number of items in the whole list.
    pub fn len(&self) -> (len: usize)
        ensures
            len == self.items().len(),
    {
        self.list.len()
    }

    /// Moves the cursor one item up, unless it is at the start of the list.
    pub fn prev(&mut self)
        requires
            old(self).wf(),
        ensures
            final(self).wf(),
            final(self).items() == old(self).items(),
            final(self).window() == old(self).window(),
            final(self).cursor() == if old(self).cursor() != 0 {
                old(self).cursor() - 1
            } else {
                0
            },
    {
        if self.current_cursor != 0 {
            self.current_cursor -= 1;
        }
    }

    /// The items in the window. The window must lie within the list.
    pub fn iter(&self) -> (items: &'a [T])
        requires
            self.wf(),
            self.cursor() + self.window() <= self.items().len(),
        ensures
            items@ == self.items().subrange(self.cursor(), self.cursor() + self.window()),
    {
        let len = self.list.len();
        assert(self.current_cursor + self.max <= len);
        slice_subrange(self.list, self.current_cursor, self.current_cursor + self.max)
    }
}

} // verus!
