//! Handing scanline buffers to a transfer engine, two in flight at most.

use vstd::prelude::*;

verus! {

/// Something that takes a filled line and gives a free line back.
///
/// `sent` is everything that has been handed over for transmission so far,
/// word by word.
pub trait LineTransfer {
    type Item;

    /// Whether the transfer can take a line. A transfer that does not say
    /// otherwise always can.
    open spec fn ready(&self) -> bool {
        true
    }

    /// The words handed over so far, in order. Of a transfer that does not
    /// say what they are, nothing is known.
    open spec fn sent(&self) -> Seq<Self::Item> {
        arbitrary()
    }

    /// Hands over the first `size` words of `line` and gives back a line that
    /// the engine no longer uses.
    fn send_scanline(&mut self, line: Vec<Self::Item>, size: u32) -> (free: Vec<Self::Item>)
        requires
            old(self).ready(),
            0 < line@.len() <= u32::MAX,
            size <= line@.len(),
        ensures
            final(self).ready(),
            0 < free@.len() <= u32::MAX,
            final(self).sent() == old(self).sent() + line@.take(size as int),
    ;
}

/// The two lines that a transfer holds, by what the engine does with them.
enum DmaState<T> {
    /// Nothing has been submitted: the engine rests on `first`, and `spare`
    /// waits to be handed out.
    Idle { first: Vec<T>, spare: Vec<T> },
    /// The engine drains `draining`, and `queued` follows it.
    Running { draining: Vec<T>, queued: Vec<T> },
}

/// A double-buffered line transfer into the word sink `tx`.
///
/// It holds two lines at any time. Each submitted line is queued behind the
/// one in flight, and the line that the engine has finished with is handed
/// back, so that the producer fills one line while the engine drains another.
pub struct DmaTransfer<T> {
    dma: Option<DmaState<T>>,
    tx: Vec<T>,
    initial: Ghost<(Seq<T>, Seq<T>)>,
    submitted: Ghost<Seq<Seq<T>>>,
    returned: Ghost<Seq<Seq<T>>>,
}

/// The line that submission number `n` (counted from 0) gives back: the spare
/// line first, then the line that the engine started on, and from then on the
/// line that was submitted two submissions earlier.
pub open spec fn line_returned<T>(first: Seq<T>, spare: Seq<T>, submitted: Seq<Seq<T>>, n: int) -> Seq<T> {
    if n == 0 {
        spare
    } else if n == 1 {
        first
    } else {
        submitted[n - 2]
    }
}

/// The two lines that a transfer holds after the submissions `submitted`, the
/// one that the engine is on first: they are the lines that the next two
/// submissions give back.
pub open spec fn lines_held<T>(first: Seq<T>, spare: Seq<T>, submitted: Seq<Seq<T>>) -> (
    Seq<T>,
    Seq<T>,
) {
    let n = submitted.len() as int;
    if n == 0 {
        (first, spare)
    } else {
        (line_returned(first, spare, submitted, n), line_returned(first, spare, submitted, n + 1))
    }
}

impl<T: Copy> DmaTransfer<T> {
    /// The line that the engine started on.
    pub closed spec fn first_line(&self) -> Seq<T> {
        self.initial@.0
    }

    /// The line that was held back at the start.
    pub closed spec fn spare_line(&self) -> Seq<T> {
        self.initial@.1
    }

    /// The lines submitted so far, in order.
    pub closed spec fn submitted(&self) -> Seq<Seq<T>> {
        self.submitted@
    }

    /// The lines given back so far, in order.
    pub closed spec fn returned(&self) -> Seq<Seq<T>> {
        self.returned@
    }

    /// The words that have reached the sink.
    pub closed spec fn delivered(&self) -> Seq<T> {
        self.tx@
    }

    /// The two lines held now, the one that the engine is on first.
    pub closed spec fn held(&self) -> (Seq<T>, Seq<T>) {
        match self.dma {
            Some(DmaState::Idle { first, spare }) => (first@, spare@),
            Some(DmaState::Running { draining, queued }) => (draining@, queued@),
            None => (Seq::empty(), Seq::empty()),
        }
    }

    /// Whether a line has been submitted.
    pub closed spec fn is_running(&self) -> bool {
        self.dma is Some && self.dma->0 is Running
    }

    /// The transfer holds the two lines that its history says it holds, and
    /// every line given back was the right one.
    pub closed spec fn wf(&self) -> bool {
        let n = self.submitted@.len() as int;
        &&& self.dma is Some
        &&& self.returned@.len() == n
        &&& self.is_running() <==> n > 0
        &&& self.held() == lines_held(self.initial@.0, self.initial@.1, self.submitted@)
        &&& forall|k: int|
            0 <= k < n ==> #[trigger] self.returned@[k] == line_returned(
                self.initial@.0,
                self.initial@.1,
                self.submitted@,
                k,
            )
    }

    /// A transfer at rest on `buffer`, with `buffer2` as its spare line.
    pub fn new(tx: Vec<T>, buffer: Vec<T>, buffer2: Vec<T>) -> (transfer: Self)
        ensures
            transfer.wf(),
            !transfer.is_running(),
            transfer.first_line() == buffer@,
            transfer.spare_line() == buffer2@,
            transfer.held() == (buffer@, buffer2@),
            transfer.submitted().len() == 0,
            transfer.returned().len() == 0,
            transfer.delivered() == tx@,
    {
        DmaTransfer {
            dma: Some(DmaState::Idle { first: buffer, spare: buffer2 }),
            tx,
            initial: Ghost((buffer@, buffer2@)),
            submitted: Ghost(Seq::empty()),
            returned: Ghost(Seq::empty()),
        }
    }

    /// Submits `buffer`, of which the first `max` words are to be sent, and
    /// gives back the line that the engine has finished with. The first
    /// submission starts the engine and gives back the spare line; every later
    /// one waits for the transfer before the one in flight, never for the line
    /// just submitted. Nothing ends the wait but the engine itself.
    pub fn do_tranfer(&mut self, buffer: Vec<T>, max: u32) -> (free: Vec<T>)
        requires
            old(self).wf(),
            max <= buffer@.len(),
        ensures
            final(self).wf(),
            final(self).is_running(),
            final(self).first_line() == old(self).first_line(),
            final(self).spare_line() == old(self).spare_line(),
            final(self).submitted() == old(self).submitted().push(buffer@),
            final(self).returned() == old(self).returned().push(free@),
            free@ == old(self).held().0 || free@ == old(self).held().1,
            free@ == line_returned(
                old(self).first_line(),
                old(self).spare_line(),
                old(self).submitted(),
                old(self).submitted().len() as int,
            ),
            final(self).held() == (
                if old(self).is_running() {
                    old(self).held().1
                } else {
                    old(self).held().0
                },
                buffer@,
            ),
            final(self).delivered() == old(self).delivered() + buffer@.take(max as int),
    {
        let mut i: usize = 0;
        while i < max as usize
            invariant
                i <= max <= buffer@.len(),
                self.dma == old(self).dma,
                self.initial == old(self).initial,
                self.submitted == old(self).submitted,
                self.returned == old(self).returned,
                self.tx@ == old(self).tx@ + buffer@.take(i as int),
            decreases max - i,
        {
            self.tx.push(buffer[i]);
            proof {
                assert(self.tx@ =~= old(self).tx@ + buffer@.take(i + 1));
            }
            i += 1;
        }
        let ghost before = self.submitted@;
        let ghost line = buffer@;
        let dma_state = self.dma.take().unwrap();
        let (free_buffer, new_dma_state) = match dma_state {
            DmaState::Idle { first, spare } => (
                spare,
                DmaState::Running { draining: first, queued: buffer },
            ),
            DmaState::Running { draining, queued } => (
                draining,
                DmaState::Running { draining: queued, queued: buffer },
            ),
        };
        self.dma = Some(new_dma_state);
        proof {
            self.submitted@ = before.push(line);
            self.returned@ = self.returned@.push(free_buffer@);
            let first = self.initial@.0;
            let spare = self.initial@.1;
            let after = self.submitted@;
            let n = before.len() as int;
            assert forall|k: int| 0 <= k <= n + 2 implies line_returned(first, spare, after, k)
                == line_returned(first, spare, before, k) || k == n + 2 by {
                if 2 <= k < n + 2 {
                    assert(after[k - 2] == before[k - 2]);
                }
            }
            assert(line_returned(first, spare, after, n + 2) == line);
        }
        free_buffer
    }

    /// Ends the transfer once the engine has finished with both lines, and
    /// gives back the sink and the two lines held.
    pub fn free(self) -> (parts: (Vec<T>, Vec<T>, Vec<T>))
        requires
            self.wf(),
        ensures
            parts.0@ == self.delivered(),
            parts.1@ == self.held().0,
            parts.2@ == self.held().1,
    {
        let DmaTransfer { dma, tx, initial: _, submitted: _, returned: _ } = self;
        match dma.unwrap() {
            DmaState::Idle { first, spare } => (tx, first, spare),
            DmaState::Running { draining, queued } => (tx, draining, queued),
        }
    }

    /// Submission number `n` gave back the spare line if it was the first, the
    /// line that the engine started on if it was the second, and else the line
    /// submitted two submissions before it.
    pub proof fn lemma_returned_line(&self, n: int)
        requires
            self.wf(),
            0 <= n < self.returned().len(),
        ensures
            self.returned().len() == self.submitted().len(),
            self.returned()[n] == line_returned(
                self.first_line(),
                self.spare_line(),
                self.submitted(),
                n,
            ),
    {
    }
}

impl<T: Copy> LineTransfer for DmaTransfer<T> {
    type Item = T;

    open spec fn ready(&self) -> bool {
        &&& self.wf()
        &&& 0 < self.held().0.len() <= u32::MAX
        &&& 0 < self.held().1.len() <= u32::MAX
    }

    open spec fn sent(&self) -> Seq<T> {
        self.delivered()
    }

    fn send_scanline(&mut self, line: Vec<T>, size: u32) -> (free: Vec<T>) {
        self.do_tranfer(line, size)
    }
}

} // verus!
