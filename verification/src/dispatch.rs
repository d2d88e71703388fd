//! Handing records from the threads that log to the one that renders.
//!
//! A [`Mailbox`] is the queue between them. It holds no lock of its own:
//! whoever shares it between threads guards it, and wakes the renderer when
//! a record has arrived or the mailbox was closed.
use std::collections::VecDeque;
use vstd::prelude::*;
use crate::clock::{is_clock_reading, sample_reading};
use crate::record::{
    lemma_record_rendered_grows, log_impl, record_rendered, RecordView, RichLoggerRecord,
};
use crate::screen::{RenderState, RichLogger};

verus! {

/// Where the rendering thread stands.
#[derive(Clone, Copy, Debug, PartialEq, Eq, Structural)]
pub enum WorkerState {
    /// The mailbox is open: records may still arrive.
    Running,
    /// The mailbox was closed while it held records: they are still rendered.
    Draining,
    /// The mailbox was closed and is empty: the thread is done.
    Terminated,
}

/// What the rendering thread finds in the mailbox.
#[derive(Debug)]
pub enum Received {
    /// The record that has waited longest.
    Record(RichLoggerRecord),
    /// Nothing, for now: the mailbox is open and empty.
    Idle,
    /// Nothing, ever again: the mailbox is closed and empty.
    Closed,
}

/// The queue of records that wait to be rendered.
pub struct Mailbox {
    queue: VecDeque<RichLoggerRecord>,
    closed: bool,
}

/// What a [`Mailbox`] stands for.
pub struct MailboxView {
    /// The records that wait, the one that has waited longest first.
    pub queue: Seq<RecordView>,
    pub closed: bool,
}

/// The views of a run of records, in order.
pub open spec fn record_views(records: Seq<RichLoggerRecord>) -> Seq<RecordView> {
    records.map_values(|record: RichLoggerRecord| record@)
}

impl MailboxView {
    /// The state of a thread that renders from this mailbox.
    pub open spec fn state(self) -> WorkerState {
        if !self.closed {
            WorkerState::Running
        } else if self.queue.len() > 0 {
            WorkerState::Draining
        } else {
            WorkerState::Terminated
        }
    }

    /// The mailbox after `record` was sent: it is the last in the queue; a
    /// closed mailbox takes nothing.
    pub open spec fn sent(self, record: RecordView) -> MailboxView {
        if self.closed {
            self
        } else {
            MailboxView { queue: self.queue.push(record), closed: false }
        }
    }

    /// The mailbox after it was closed.
    pub open spec fn shut(self) -> MailboxView {
        MailboxView { queue: self.queue, closed: true }
    }

    /// The mailbox after the renderer took what it found.
    pub open spec fn after_receive(self) -> MailboxView {
        if self.queue.len() > 0 {
            MailboxView { queue: self.queue.drop_first(), closed: self.closed }
        } else {
            self
        }
    }

    /// The records that the renderer takes, one receive after the other,
    /// until it finds the mailbox empty.
    pub open spec fn received_in_order(self) -> Seq<RecordView>
        decreases self.queue.len(),
    {
        if self.queue.len() == 0 {
            Seq::empty()
        } else {
            seq![self.queue[0]] + self.after_receive().received_in_order()
        }
    }
}

impl View for Mailbox {
    type V = MailboxView;

    closed spec fn view(&self) -> MailboxView {
        MailboxView { queue: record_views(self.queue@), closed: self.closed }
    }
}

/// The state after each of `records` was rendered, in order, at the second
/// `now`.
pub open spec fn drained(
    st: RenderState,
    records: Seq<RecordView>,
    width: nat,
    now: int,
    clock: Option<Seq<char>>,
) -> RenderState
    decreases records.len(),
{
    if records.len() == 0 {
        st
    } else {
        record_rendered(drained(st, records.drop_last(), width, now, clock), records.last(), width, now, clock)
    }
}

/// The renderer takes the records in the order in which they were sent.
pub proof fn lemma_received_in_order(mailbox: MailboxView)
    ensures
        mailbox.received_in_order() == mailbox.queue,
    decreases mailbox.queue.len(),
{
    if mailbox.queue.len() > 0 {
        lemma_received_in_order(mailbox.after_receive());
        assert(seq![mailbox.queue[0]] + mailbox.queue.drop_first() =~= mailbox.queue);
    }
}

/// Of two records sent to an open mailbox one after the other, whatever
/// was sent before them, the renderer takes the first before the second.
pub proof fn lemma_first_sent_first_taken(mailbox: MailboxView, first: RecordView, second: RecordView)
    requires
        !mailbox.closed,
    ensures
        mailbox.sent(first).sent(second).received_in_order() == mailbox.queue.push(first).push(
            second,
        ),
{
    lemma_received_in_order(mailbox.sent(first).sent(second));
}

impl Mailbox {
    /// An open mailbox that holds nothing.
    pub fn new() -> (mailbox: Mailbox)
        ensures
            mailbox@ == (MailboxView { queue: Seq::empty(), closed: false }),
    {
        let mailbox = Mailbox { queue: VecDeque::new(), closed: false };
        assert(record_views(mailbox.queue@) =~= Seq::<RecordView>::empty());
        mailbox
    }

    /// Puts `record` at the end of the queue, and tells whether the mailbox
    /// took it: a closed mailbox takes nothing.
    pub fn send(&mut self, record: RichLoggerRecord) -> (taken: bool)
        ensures
            taken == !old(self)@.closed,
            final(self)@ == old(self)@.sent(record@),
    {
        if self.closed {
            false
        } else {
            let ghost before = self.queue@;
            self.queue.push_back(record);
            assert(record_views(self.queue@) =~= record_views(before).push(record@));
            true
        }
    }

    /// Closes the mailbox: what it holds is still handed out, and nothing
    /// more is taken.
    pub fn close(&mut self)
        ensures
            final(self)@ == old(self)@.shut(),
    {
        self.closed = true;
    }

    /// The state of a thread that renders from this mailbox.
    pub fn state(&self) -> (state: WorkerState)
        ensures
            state == self@.state(),
    {
        if !self.closed {
            WorkerState::Running
        } else if self.queue.len() > 0 {
            WorkerState::Draining
        } else {
            WorkerState::Terminated
        }
    }

    /// The number of records that wait.
    pub fn len(&self) -> (count: usize)
        ensures
            count == self@.queue.len(),
    {
        self.queue.len()
    }

    /// Hands out the record that has waited longest. Where none waits, tells
    /// whether one may still come.
    pub fn receive(&mut self) -> (found: Received)
        ensures
            final(self)@ == old(self)@.after_receive(),
            match found {
                Received::Record(record) => old(self)@.queue.len() > 0 && record@ == old(
                    self,
                )@.queue[0],
                Received::Idle => old(self)@.queue.len() == 0 && !old(self)@.closed,
                Received::Closed => old(self)@.queue.len() == 0 && old(self)@.closed,
            },
    {
        let ghost before = self.queue@;
        match self.queue.pop_front() {
            Some(record) => {
                assert(record_views(self.queue@) =~= record_views(before).drop_first());
                Received::Record(record)
            },
            None => {
                if self.closed {
                    Received::Closed
                } else {
                    Received::Idle
                }
            },
        }
    }

    /// Renders every record that waits, in the order in which they were
    /// sent, at the second `now`.
    pub fn drain(&mut self, logger: &mut RichLogger, width: usize, now: i64)
        requires
            old(logger).wf(),
        ensures
            final(logger).wf(),
            final(self)@ == (MailboxView { queue: Seq::empty(), closed: old(self)@.closed }),
            exists|clock: Option<Seq<char>>|
                {
                    &&& is_clock_reading(now as int, clock)
                    &&& final(logger)@ == #[trigger] drained(
                        old(logger)@,
                        old(self)@.queue,
                        width as nat,
                        now as int,
                        clock,
                    )
                },
    {
        let ghost all = self@.queue;
        let ghost mut clock: Option<Seq<char>> = sample_reading(now as int);
        let ghost mut done: int = 0;
        assert(all.take(0) =~= Seq::<RecordView>::empty());
        assert(all.skip(0) =~= all);
        loop
            invariant
                logger.wf(),
                all == old(self)@.queue,
                self@.closed == old(self)@.closed,
                0 <= done <= all.len(),
                self@.queue == all.skip(done),
                is_clock_reading(now as int, clock),
                logger@ == drained(old(logger)@, all.take(done), width as nat, now as int, clock),
                done > 0 ==> logger@.last_second == now,
            decreases all.len() - done,
        {
            match self.receive() {
                Received::Record(record) => {
                    let ghost before = logger@;
                    log_impl(logger, &record, width, now);
                    proof {
                        let found = choose|found: Option<Seq<char>>|
                            {
                                &&& is_clock_reading(now as int, found)
                                &&& logger@ == #[trigger] record_rendered(
                                    before,
                                    record@,
                                    width as nat,
                                    now as int,
                                    found,
                                )
                            };
                        assert(all.take(done + 1).drop_last() =~= all.take(done));
                        assert(all.take(done + 1).last() == record@);
                        assert(all.skip(done).drop_first() =~= all.skip(done + 1));
                        if done == 0 {
                            clock = found;
                            assert(all.take(0).len() == 0);
                            assert(drained(
                                old(logger)@,
                                all.take(0),
                                width as nat,
                                now as int,
                                clock,
                            ) == before);
                        } else {
                            lemma_cached_clock(before, record@, width as nat, now as int, found, clock);
                        }
                        lemma_rendered_second(before, record@, width as nat, now as int, clock);
                        assert(logger@ == drained(
                            old(logger)@,
                            all.take(done + 1),
                            width as nat,
                            now as int,
                            clock,
                        ));
                        done = done + 1;
                    }
                },
                _ => {
                    assert(all.take(done) =~= all);
                    assert(self@.queue =~= Seq::<RecordView>::empty());
                    return ;
                },
            }
        }
    }
}

/// Within the second that was printed last, a record is rendered without a
/// look at the clock.
pub proof fn lemma_cached_clock(
    st: RenderState,
    record: RecordView,
    width: nat,
    now: int,
    a: Option<Seq<char>>,
    b: Option<Seq<char>>,
)
    requires
        st.last_second == now,
    ensures
        record_rendered(st, record, width, now, a) == record_rendered(st, record, width, now, b),
{
}

/// A record that was rendered leaves its second behind.
pub proof fn lemma_rendered_second(
    st: RenderState,
    record: RecordView,
    width: nat,
    now: int,
    clock: Option<Seq<char>>,
)
    ensures
        record_rendered(st, record, width, now, clock).last_second == now,
{
    lemma_record_rendered_grows(st, record, width, now, clock);
}

/// Of two records sent one after the other, the first is rendered in full
/// before anything of the second: the output of the first follows all that
/// was rendered before it, and the output of the second follows that of the
/// first.
pub proof fn lemma_rendered_in_order(
    st: RenderState,
    earlier: Seq<RecordView>,
    first: RecordView,
    second: RecordView,
    width: nat,
    now: int,
    clock: Option<Seq<char>>,
)
    ensures
        ({
            let before = drained(st, earlier, width, now, clock);
            let middle = record_rendered(before, first, width, now, clock);
            let after = record_rendered(middle, second, width, now, clock);
            &&& drained(st, earlier.push(first).push(second), width, now, clock) == after
            &&& before.grown_to(middle)
            &&& middle.grown_to(after)
        }),
{
    let before = drained(st, earlier, width, now, clock);
    let middle = record_rendered(before, first, width, now, clock);
    let one = earlier.push(first);
    let two = one.push(second);
    assert(one.drop_last() =~= earlier);
    assert(two.drop_last() =~= one);
    assert(one.last() == first);
    assert(two.last() == second);
    assert(drained(st, one, width, now, clock) == middle);
    assert(drained(st, two, width, now, clock) == record_rendered(
        middle,
        second,
        width,
        now,
        clock,
    ));
    lemma_record_rendered_grows(before, first, width, now, clock);
    lemma_record_rendered_grows(middle, second, width, now, clock);
}

} // verus!
