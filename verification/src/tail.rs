//! The tailer: follows one stream from the moment of connection onward.
//!
//! The tailer never touches the store or the queue itself. Each call of
//! [`LogListener::tail_log`] takes what just happened and answers with what
//! to do next: read the store, push a batch onto the queue, or stop.

use crate::entry::{
    flatten_xrange, lemma_lines_of_concat, lemma_matching_none, lines_of, EntryModel,
};
use crate::store::{ReadRequest, ReadRequestModel, StoreReply, StoreReplyModel};
use vstd::prelude::*;
use vstd::string::StringExecFns;

verus! {

/// The most entries that one read of the tailer asks for.
pub const TAIL_BATCH: usize = 50;

/// How long one read of the tailer may wait for new entries, in
/// milliseconds.
pub const TAIL_WAIT_MS: usize = 5000;

/// The cursor that stands for "only entries that arrive from now on".
pub open spec fn newest() -> Seq<char> {
    seq!['$']
}

/// Why a tail session ended.
#[derive(Debug, Clone, Copy, PartialEq, Eq, Structural)]
pub enum TailEnd {
    /// The consumer side of the queue was seen closed before a read.
    QueueClosed,
    /// A push failed because the consumer side was dropped.
    PushFailed,
    /// The store read returned an error.
    StoreFailed,
}

/// What happened since the tailer last answered.
#[derive(Debug, Clone, PartialEq, Eq)]
pub enum TailEvent {
    /// The session begins.
    Started,
    /// The read that the tailer asked for has returned.
    Read(StoreReply),
    /// The batch that the tailer handed out is on the queue.
    Pushed,
    /// The batch could not be pushed: the consumer side is gone.
    PushFailed,
}

/// What the tailer wants done next.
#[derive(Debug, Clone, PartialEq, Eq)]
pub enum TailAction {
    /// Read the store, then report `TailEvent::Read`.
    Read(ReadRequest),
    /// Push the batch onto the queue, then report `TailEvent::Pushed` or
    /// `TailEvent::PushFailed`.
    Push(Vec<String>),
    /// End the session.
    Stop(TailEnd),
}

/// The tailer of one stream.
#[derive(Debug, Clone, PartialEq, Eq)]
pub struct LogListener {
    log_key: String,
    last_id: String,
    ended: Option<TailEnd>,
}

/// Mathematical model of a [`TailEvent`].
pub enum TailEventModel {
    Started,
    Read(StoreReplyModel),
    Pushed,
    PushFailed,
}

/// Mathematical model of a [`TailAction`].
pub enum TailActionModel {
    Read(ReadRequestModel),
    Push(Seq<Seq<char>>),
    Stop(TailEnd),
}

/// Mathematical model of a [`LogListener`]: the stream it follows, its
/// cursor, and why it ended, if it has.
pub struct TailModel {
    pub log_key: Seq<char>,
    pub last_id: Seq<char>,
    pub ended: Option<TailEnd>,
}

impl View for TailEvent {
    type V = TailEventModel;

    open spec fn view(&self) -> TailEventModel {
        match self {
            TailEvent::Started => TailEventModel::Started,
            TailEvent::Read(reply) => TailEventModel::Read(reply@),
            TailEvent::Pushed => TailEventModel::Pushed,
            TailEvent::PushFailed => TailEventModel::PushFailed,
        }
    }
}

impl View for TailAction {
    type V = TailActionModel;

    open spec fn view(&self) -> TailActionModel {
        match self {
            TailAction::Read(request) => TailActionModel::Read(request@),
            TailAction::Push(batch) => TailActionModel::Push(batch.deep_view()),
            TailAction::Stop(end) => TailActionModel::Stop(*end),
        }
    }
}

impl View for LogListener {
    type V = TailModel;

    closed spec fn view(&self) -> TailModel {
        TailModel { log_key: self.log_key@, last_id: self.last_id@, ended: self.ended }
    }
}

/// The read that a tailer in state `state` issues.
pub open spec fn tail_request(state: TailModel) -> ReadRequestModel {
    ReadRequestModel {
        stream: state.log_key,
        cursor: state.last_id,
        count: TAIL_BATCH as nat,
        block_ms: TAIL_WAIT_MS as nat,
    }
}

/// What a running tailer does at the top of its loop: it stops when the
/// queue is seen closed, and reads otherwise.
pub open spec fn tail_resume(state: TailModel, queue_closed: bool) -> (TailModel, TailActionModel) {
    if queue_closed {
        (
            TailModel { ended: Some(TailEnd::QueueClosed), ..state },
            TailActionModel::Stop(TailEnd::QueueClosed),
        )
    } else {
        (state, TailActionModel::Read(tail_request(state)))
    }
}

/// One step of the tailer: the next state and the action, from the state,
/// the event, and whether the queue is seen closed at that moment.
pub open spec fn tail_step(state: TailModel, event: TailEventModel, queue_closed: bool) -> (
    TailModel,
    TailActionModel,
) {
    match state.ended {
        Some(end) => (state, TailActionModel::Stop(end)),
        None => match event {
            TailEventModel::Started => tail_resume(state, queue_closed),
            TailEventModel::Pushed => tail_resume(state, queue_closed),
            TailEventModel::PushFailed => (
                TailModel { ended: Some(TailEnd::PushFailed), ..state },
                TailActionModel::Stop(TailEnd::PushFailed),
            ),
            TailEventModel::Read(StoreReplyModel::Failed) => (
                TailModel { ended: Some(TailEnd::StoreFailed), ..state },
                TailActionModel::Stop(TailEnd::StoreFailed),
            ),
            TailEventModel::Read(StoreReplyModel::Entries(entries)) => if entries.len() == 0 {
                tail_resume(state, queue_closed)
            } else {
                (
                    TailModel { last_id: entries.last().id, ..state },
                    TailActionModel::Push(lines_of(entries)),
                )
            },
        },
    }
}

/// One input of a tail session: an event, and whether the queue was seen
/// closed at that moment.
pub struct TailInput {
    pub event: TailEventModel,
    pub queue_closed: bool,
}

/// The state of a tailer that started in `start` and took the inputs in
/// turn.
pub open spec fn tail_state_after(start: TailModel, inputs: Seq<TailInput>) -> TailModel
    decreases inputs.len(),
{
    if inputs.len() == 0 {
        start
    } else {
        tail_step(
            tail_state_after(start, inputs.drop_last()),
            inputs.last().event,
            inputs.last().queue_closed,
        ).0
    }
}

/// The lines that such a tailer handed out for the queue, batch after batch.
pub open spec fn tail_pushed(start: TailModel, inputs: Seq<TailInput>) -> Seq<Seq<char>>
    decreases inputs.len(),
{
    if inputs.len() == 0 {
        Seq::empty()
    } else {
        let earlier = tail_pushed(start, inputs.drop_last());
        match tail_step(
            tail_state_after(start, inputs.drop_last()),
            inputs.last().event,
            inputs.last().queue_closed,
        ).1 {
            TailActionModel::Push(batch) => earlier + batch,
            _ => earlier,
        }
    }
}

/// The entries that such a tailer took in: those of the reads that came back
/// while the session ran, in the order of the reads.
pub open spec fn tail_taken(start: TailModel, inputs: Seq<TailInput>) -> Seq<EntryModel>
    decreases inputs.len(),
{
    if inputs.len() == 0 {
        Seq::empty()
    } else {
        let earlier = tail_taken(start, inputs.drop_last());
        if tail_state_after(start, inputs.drop_last()).ended is None {
            match inputs.last().event {
                TailEventModel::Read(StoreReplyModel::Entries(entries)) => earlier + entries,
                _ => earlier,
            }
        } else {
            earlier
        }
    }
}

/// Order is preserved over a whole session: whatever the reads return and
/// whenever the session ends, the lines handed out are the lines of the
/// entries taken in, in the order in which the store returned them.
pub proof fn lemma_tail_preserves_order(start: TailModel, inputs: Seq<TailInput>)
    ensures
        tail_pushed(start, inputs) == lines_of(tail_taken(start, inputs)),
    decreases inputs.len(),
{
    if inputs.len() > 0 {
        lemma_tail_preserves_order(start, inputs.drop_last());
        let taken = tail_taken(start, inputs.drop_last());
        if tail_state_after(start, inputs.drop_last()).ended is None {
            match inputs.last().event {
                TailEventModel::Read(StoreReplyModel::Entries(entries)) => {
                    lemma_lines_of_concat(taken, entries);
                    if entries.len() == 0 {
                        assert(taken + entries =~= taken);
                    }
                },
                _ => {},
            }
        }
    }
}

/// The cursor follows the entries: after any inputs it is the ID of the last
/// entry taken in, and the cursor of the start where none was.
pub proof fn lemma_tail_cursor(start: TailModel, inputs: Seq<TailInput>)
    ensures
        tail_state_after(start, inputs).log_key == start.log_key,
        tail_state_after(start, inputs).last_id == if tail_taken(start, inputs).len() > 0 {
            tail_taken(start, inputs).last().id
        } else {
            start.last_id
        },
    decreases inputs.len(),
{
    if inputs.len() > 0 {
        lemma_tail_cursor(start, inputs.drop_last());
    }
}

/// Whether `entries` can be the answer to a read of the entries after
/// `cursor`, under the order `rank` that the store puts on IDs: the IDs
/// ascend, and all of them come after the cursor.
pub open spec fn after_cursor(
    rank: spec_fn(Seq<char>) -> int,
    cursor: Seq<char>,
    entries: Seq<EntryModel>,
) -> bool {
    &&& forall|i: int| 0 <= i < entries.len() ==> rank(cursor) < rank(#[trigger] entries[i].id)
    &&& forall|i: int, j: int|
        0 <= i < j < entries.len() ==> rank(#[trigger] entries[i].id) < rank(
            #[trigger] entries[j].id,
        )
}

/// Whether every read of a session was answered with entries after the
/// cursor that the tailer held at that moment.
pub open spec fn tail_fed(
    rank: spec_fn(Seq<char>) -> int,
    start: TailModel,
    inputs: Seq<TailInput>,
) -> bool
    decreases inputs.len(),
{
    if inputs.len() == 0 {
        true
    } else {
        let before = tail_state_after(start, inputs.drop_last());
        &&& tail_fed(rank, start, inputs.drop_last())
        &&& before.ended is None ==> match inputs.last().event {
            TailEventModel::Read(StoreReplyModel::Entries(entries)) => after_cursor(
                rank,
                before.last_id,
                entries,
            ),
            _ => true,
        }
    }
}

/// The cursor only moves forward: where the store answers every read with
/// entries after the cursor, the entries taken in over a whole session have
/// ascending IDs, all after the cursor of the start. No entry is taken in
/// twice, and with `lemma_tail_preserves_order` the lines handed out follow
/// the order of the IDs of their entries.
pub proof fn lemma_tail_ids_ascend(
    rank: spec_fn(Seq<char>) -> int,
    start: TailModel,
    inputs: Seq<TailInput>,
)
    requires
        tail_fed(rank, start, inputs),
    ensures
        after_cursor(rank, start.last_id, tail_taken(start, inputs)),
    decreases inputs.len(),
{
    if inputs.len() > 0 {
        let rest = inputs.drop_last();
        lemma_tail_ids_ascend(rank, start, rest);
        lemma_tail_cursor(start, rest);
        let before = tail_state_after(start, rest);
        let earlier = tail_taken(start, rest);
        let taken = tail_taken(start, inputs);
        if before.ended is None {
            match inputs.last().event {
                TailEventModel::Read(StoreReplyModel::Entries(entries)) => {
                    assert forall|i: int| 0 <= i < taken.len() implies rank(start.last_id) < rank(
                        #[trigger] taken[i].id,
                    ) by {
                        if i < earlier.len() {
                            assert(taken[i] == earlier[i]);
                        } else {
                            assert(taken[i] == entries[i - earlier.len()]);
                            if earlier.len() > 0 {
                                assert(rank(start.last_id) < rank(earlier[earlier.len() - 1].id));
                            }
                        }
                    }
                    assert forall|i: int, j: int| 0 <= i < j < taken.len() implies rank(
                        #[trigger] taken[i].id,
                    ) < rank(#[trigger] taken[j].id) by {
                        if j < earlier.len() {
                            assert(taken[i] == earlier[i]);
                            assert(taken[j] == earlier[j]);
                        } else if i < earlier.len() {
                            assert(taken[i] == earlier[i]);
                            assert(taken[j] == entries[j - earlier.len()]);
                            let last = earlier.len() - 1;
                            if i < last {
                                assert(rank(earlier[i].id) < rank(earlier[last].id));
                            }
                            assert(before.last_id == earlier[last].id);
                        } else {
                            assert(taken[i] == entries[i - earlier.len()]);
                            assert(taken[j] == entries[j - earlier.len()]);
                        }
                    }
                },
                _ => {},
            }
        }
    }
}

/// A session that has ended stays ended, for the same reason, and hands out
/// nothing more.
pub proof fn lemma_tail_end_is_final(state: TailModel, event: TailEventModel, queue_closed: bool)
    requires
        state.ended is Some,
    ensures
        tail_step(state, event, queue_closed) == (
            state,
            TailActionModel::Stop(state.ended->Some_0),
        ),
{
}

impl LogListener {
    /// A tailer of the stream `log_key` that has not started: its cursor
    /// stands for the entries that arrive from now on.
    pub fn new(log_key: String) -> (listener: Self)
        ensures
            listener@ == (TailModel { log_key: log_key@, last_id: newest(), ended: None }),
    {
        proof {
            reveal_strlit("$");
            assert("$"@ =~= newest());
        }
        LogListener { log_key, last_id: String::from_str("$"), ended: None }
    }

    /// The stream that this tailer follows.
    pub fn log_key(&self) -> (key: &String)
        ensures
            key@ == self@.log_key,
    {
        &self.log_key
    }

    /// The cursor: the ID of the last entry seen, or the cursor for "from
    /// now on" before the first.
    pub fn last_id(&self) -> (id: &String)
        ensures
            id@ == self@.last_id,
    {
        &self.last_id
    }

    /// Why the session ended, once it has.
    pub fn ended(&self) -> (end: Option<TailEnd>)
        ensures
            end == self@.ended,
    {
        self.ended
    }

    /// The top of the loop: stop if the queue is seen closed, read otherwise.
    fn resume(&mut self, queue_closed: bool) -> (action: TailAction)
        requires
            old(self)@.ended is None,
        ensures
            (final(self)@, action@) == tail_resume(old(self)@, queue_closed),
    {
        if queue_closed {
            self.ended = Some(TailEnd::QueueClosed);
            TailAction::Stop(TailEnd::QueueClosed)
        } else {
            TailAction::Read(
                ReadRequest {
                    stream: self.log_key.clone(),
                    cursor: self.last_id.clone(),
                    count: TAIL_BATCH,
                    block_ms: TAIL_WAIT_MS,
                },
            )
        }
    }

    /// One step of the tail session. `queue_closed` says whether the
    /// consumer side of the queue is seen closed at this moment.
    ///
    /// A read that returns nothing is retried; one that returns entries moves
    /// the cursor to the last of them and hands out their lines as one batch.
    /// The session ends when the queue is closed, a push fails, or the store
    /// fails, and every later step answers with the same end.
    pub fn tail_log(&mut self, event: TailEvent, queue_closed: bool) -> (action: TailAction)
        ensures
            (final(self)@, action@) == tail_step(old(self)@, event@, queue_closed),
    {
        if let Some(end) = self.ended {
            return TailAction::Stop(end);
        }
        match event {
            TailEvent::Started => self.resume(queue_closed),
            TailEvent::Pushed => self.resume(queue_closed),
            TailEvent::PushFailed => {
                self.ended = Some(TailEnd::PushFailed);
                TailAction::Stop(TailEnd::PushFailed)
            },
            TailEvent::Read(StoreReply::Failed) => {
                self.ended = Some(TailEnd::StoreFailed);
                TailAction::Stop(TailEnd::StoreFailed)
            },
            TailEvent::Read(StoreReply::Entries(entries)) => {
                if entries.len() == 0 {
                    self.resume(queue_closed)
                } else {
                    self.last_id = entries[entries.len() - 1].id.clone();
                    assert(entries.deep_view().last().id == entries@.last().id@);
                    proof {
                        lemma_matching_none(lines_of(entries.deep_view()));
                    }
                    let batch = flatten_xrange(entries, &None);
                    TailAction::Push(batch)
                }
            },
        }
    }
}

} // verus!
