//! The bridge: owns the client transport for one tail session.
//!
//! The bridge waits on two sources at once, the transport and the queue of
//! batches, and reacts to whichever is ready. Each call of
//! [`ClientBridge::mediate_messages`] takes the event that was ready and
//! answers with what to do with the transport.

use vstd::prelude::*;

verus! {

/// The error type of `serde_json`.
#[verifier::external_type_specification]
#[verifier::external_body]
pub struct ExJsonError(serde_json::Error);

/// The JSON text of an array of strings, as `serde_json` writes it.
pub uninterp spec fn json_array_text(lines: Seq<Seq<char>>) -> Seq<char>;

/// `serde_json::to_string` on a list of strings: it succeeds, since it
/// writes strings into a byte vector and neither can fail, and the text is
/// the compact JSON array of the strings, a function of the list alone.
#[verifier::external_body]
fn to_json(lines: &Vec<String>) -> (r: Result<String, serde_json::Error>)
    ensures
        r is Ok,
        r matches Ok(text) ==> text@ == json_array_text(lines.deep_view()),
{
    serde_json::to_string(lines)
}

/// What the transport yielded.
#[derive(Debug, Clone, Copy, PartialEq, Eq, Structural)]
pub enum Inbound {
    /// A frame from the client; `close` says whether it is a close frame.
    Frame { close: bool },
    /// Reading the transport failed.
    ReadError,
    /// The transport is closed.
    Closed,
}

/// Why a bridge ended.
#[derive(Debug, Clone, Copy, PartialEq, Eq, Structural)]
pub enum BridgeEnd {
    /// The client closed the transport.
    ClientClosed,
    /// The tailer stopped: the queue has no producer left.
    TailerDone,
    /// A frame could not be written or sent.
    SendFailed,
}

/// The event that was ready.
#[derive(Debug, Clone, PartialEq, Eq)]
pub enum BridgeEvent {
    /// The transport yielded something.
    Inbound(Inbound),
    /// The queue yielded a batch, or `None` once its producer is gone.
    Lines(Option<Vec<String>>),
    /// The frame that the bridge handed out could not be sent.
    SendFailed,
}

/// What the bridge wants done next.
#[derive(Debug, Clone, PartialEq, Eq)]
pub enum BridgeAction {
    /// Nothing: wait for the next event.
    Wait,
    /// Send the text as one frame, report `BridgeEvent::SendFailed` if that
    /// fails, and wait for the next event.
    Send(String),
    /// Send a close frame without retrying, and end the session.
    Close,
    /// Drop the receiving end of the queue and end the session.
    Stop,
}

/// The bridge of one tail session.
#[derive(Debug, Clone, PartialEq, Eq)]
pub struct ClientBridge {
    ended: Option<BridgeEnd>,
}

/// Mathematical model of a [`BridgeEvent`].
pub enum BridgeEventModel {
    Inbound(Inbound),
    Lines(Option<Seq<Seq<char>>>),
    SendFailed,
}

/// Mathematical model of a [`BridgeAction`].
pub enum BridgeActionModel {
    Wait,
    Send(Seq<char>),
    Close,
    Stop,
}

impl View for BridgeEvent {
    type V = BridgeEventModel;

    open spec fn view(&self) -> BridgeEventModel {
        match self {
            BridgeEvent::Inbound(inbound) => BridgeEventModel::Inbound(*inbound),
            BridgeEvent::Lines(lines) => BridgeEventModel::Lines(lines.deep_view()),
            BridgeEvent::SendFailed => BridgeEventModel::SendFailed,
        }
    }
}

impl View for BridgeAction {
    type V = BridgeActionModel;

    open spec fn view(&self) -> BridgeActionModel {
        match self {
            BridgeAction::Wait => BridgeActionModel::Wait,
            BridgeAction::Send(text) => BridgeActionModel::Send(text@),
            BridgeAction::Close => BridgeActionModel::Close,
            BridgeAction::Stop => BridgeActionModel::Stop,
        }
    }
}

/// The model of a bridge is why it ended, or `None` while it runs.
impl View for ClientBridge {
    type V = Option<BridgeEnd>;

    closed spec fn view(&self) -> Option<BridgeEnd> {
        self.ended
    }
}

/// What a bridge does with a batch, given the frame text that was written
/// for it, or `None` where none could be written: a running bridge sends the
/// text, or ends for want of one.
pub open spec fn bridge_forward(state: Option<BridgeEnd>, text: Option<Seq<char>>) -> (
    Option<BridgeEnd>,
    BridgeActionModel,
) {
    match state {
        Some(_) => (state, BridgeActionModel::Stop),
        None => match text {
            Some(frame) => (None, BridgeActionModel::Send(frame)),
            None => (Some(BridgeEnd::SendFailed), BridgeActionModel::Stop),
        },
    }
}

/// The text that a serialisation produced, if it produced one.
pub open spec fn written(serialized: Result<String, serde_json::Error>) -> Option<Seq<char>> {
    match serialized {
        Ok(text) => Some(text@),
        Err(_) => None,
    }
}

/// One step of the bridge: the next state and the action, from the state and
/// the event. `text` is the frame text written for the batch of the event,
/// and counts only where the event holds a batch.
pub open spec fn bridge_step(
    state: Option<BridgeEnd>,
    event: BridgeEventModel,
    text: Option<Seq<char>>,
) -> (Option<BridgeEnd>, BridgeActionModel) {
    match state {
        Some(_) => (state, BridgeActionModel::Stop),
        None => match event {
            BridgeEventModel::Inbound(Inbound::Closed) => (
                Some(BridgeEnd::ClientClosed),
                BridgeActionModel::Stop,
            ),
            BridgeEventModel::Inbound(Inbound::ReadError) => (None, BridgeActionModel::Wait),
            BridgeEventModel::Inbound(Inbound::Frame { close }) => if close {
                (Some(BridgeEnd::ClientClosed), BridgeActionModel::Stop)
            } else {
                (None, BridgeActionModel::Wait)
            },
            BridgeEventModel::Lines(None) => (Some(BridgeEnd::TailerDone), BridgeActionModel::Close),
            BridgeEventModel::Lines(Some(_)) => bridge_forward(state, text),
            BridgeEventModel::SendFailed => (Some(BridgeEnd::SendFailed), BridgeActionModel::Stop),
        },
    }
}

/// The frame text of the batch that an event holds.
pub open spec fn frame_text(event: BridgeEventModel) -> Option<Seq<char>> {
    match event {
        BridgeEventModel::Lines(Some(lines)) => Some(json_array_text(lines)),
        _ => None,
    }
}

/// One input of a bridge: an event, and the frame text written for its
/// batch, if any was.
pub struct BridgeInput {
    pub event: BridgeEventModel,
    pub text: Option<Seq<char>>,
}

/// The state of a bridge that started in `start` and took the inputs in
/// turn.
pub open spec fn bridge_state_after(start: Option<BridgeEnd>, inputs: Seq<BridgeInput>) -> Option<
    BridgeEnd,
>
    decreases inputs.len(),
{
    if inputs.len() == 0 {
        start
    } else {
        bridge_step(
            bridge_state_after(start, inputs.drop_last()),
            inputs.last().event,
            inputs.last().text,
        ).0
    }
}

/// How many close frames such a bridge asked for.
pub open spec fn bridge_closes(start: Option<BridgeEnd>, inputs: Seq<BridgeInput>) -> nat
    decreases inputs.len(),
{
    if inputs.len() == 0 {
        0
    } else {
        let earlier = bridge_closes(start, inputs.drop_last());
        match bridge_step(
            bridge_state_after(start, inputs.drop_last()),
            inputs.last().event,
            inputs.last().text,
        ).1 {
            BridgeActionModel::Close => earlier + 1,
            _ => earlier,
        }
    }
}

/// The frames that such a bridge asked to send, in order.
pub open spec fn bridge_sent(start: Option<BridgeEnd>, inputs: Seq<BridgeInput>) -> Seq<Seq<char>>
    decreases inputs.len(),
{
    if inputs.len() == 0 {
        Seq::empty()
    } else {
        let earlier = bridge_sent(start, inputs.drop_last());
        match bridge_step(
            bridge_state_after(start, inputs.drop_last()),
            inputs.last().event,
            inputs.last().text,
        ).1 {
            BridgeActionModel::Send(frame) => earlier.push(frame),
            _ => earlier,
        }
    }
}

/// The JSON texts of the batches among the inputs, in order.
pub open spec fn frames_of(inputs: Seq<BridgeInput>) -> Seq<Seq<char>>
    decreases inputs.len(),
{
    if inputs.len() == 0 {
        Seq::empty()
    } else {
        match inputs.last().event {
            BridgeEventModel::Lines(Some(lines)) => frames_of(inputs.drop_last()).push(
                json_array_text(lines),
            ),
            _ => frames_of(inputs.drop_last()),
        }
    }
}

/// Whether an input is one that `mediate_messages` takes, its frame text
/// written, and that ends no session: a batch, a read error, or a frame that
/// is no close frame.
pub open spec fn runs_on(input: BridgeInput) -> bool {
    &&& input.text == frame_text(input.event)
    &&& match input.event {
        BridgeEventModel::Lines(Some(_)) => true,
        BridgeEventModel::Inbound(Inbound::ReadError) => true,
        BridgeEventModel::Inbound(Inbound::Frame { close }) => !close,
        _ => false,
    }
}

/// Batches go out as they came in: while the client stays, the tailer runs
/// and every send succeeds, the bridge runs on, and the frames sent are the
/// JSON texts of the batches, one frame per batch and in the order of the
/// batches, whatever else the transport yields in between.
pub proof fn lemma_bridge_forwards_in_order(inputs: Seq<BridgeInput>)
    requires
        forall|i: int| 0 <= i < inputs.len() ==> runs_on(#[trigger] inputs[i]),
    ensures
        bridge_state_after(None, inputs) is None,
        bridge_sent(None, inputs) == frames_of(inputs),
    decreases inputs.len(),
{
    if inputs.len() > 0 {
        lemma_bridge_forwards_in_order(inputs.drop_last());
        assert(runs_on(inputs[inputs.len() - 1]));
    }
}

/// A bridge that has ended stays ended, for the same reason, and touches the
/// transport no more.
pub proof fn lemma_bridge_end_is_final(
    state: Option<BridgeEnd>,
    event: BridgeEventModel,
    text: Option<Seq<char>>,
)
    requires
        state is Some,
    ensures
        bridge_step(state, event, text) == (state, BridgeActionModel::Stop),
{
}

/// The reason for which a bridge ended does not change: what holds after
/// some of the inputs still holds after all of them.
pub proof fn lemma_bridge_one_cause(start: Option<BridgeEnd>, inputs: Seq<BridgeInput>, upto: int)
    requires
        0 <= upto <= inputs.len(),
        bridge_state_after(start, inputs.take(upto)) is Some,
    ensures
        bridge_state_after(start, inputs) == bridge_state_after(start, inputs.take(upto)),
    decreases inputs.len() - upto,
{
    if upto == inputs.len() {
        assert(inputs.take(upto) =~= inputs);
    } else {
        assert(inputs.take(upto + 1).drop_last() =~= inputs.take(upto));
        lemma_bridge_one_cause(start, inputs, upto + 1);
    }
}

/// A running bridge asks for a close frame at most once, whatever comes in,
/// and only when it ends because the tailer is done.
pub proof fn lemma_bridge_closes_once(inputs: Seq<BridgeInput>)
    ensures
        bridge_closes(None, inputs) <= 1,
        bridge_closes(None, inputs) == 1 <==> bridge_state_after(None, inputs) == Some(
            BridgeEnd::TailerDone,
        ),
    decreases inputs.len(),
{
    if inputs.len() > 0 {
        lemma_bridge_closes_once(inputs.drop_last());
    }
}

impl ClientBridge {
    /// A bridge that runs.
    pub fn new() -> (bridge: Self)
        ensures
            bridge@ is None,
    {
        ClientBridge { ended: None }
    }

    /// Why the bridge ended, once it has.
    pub fn ended(&self) -> (end: Option<BridgeEnd>)
        ensures
            end == self@,
    {
        self.ended
    }

    /// What the bridge does with a batch once its frame text was written, or
    /// could not be: a running bridge sends the text as one frame, or ends
    /// the session with `BridgeEnd::SendFailed`.
    pub fn forward(&mut self, serialized: Result<String, serde_json::Error>) -> (action:
        BridgeAction)
        ensures
            (final(self)@, action@) == bridge_forward(old(self)@, written(serialized)),
    {
        if self.ended.is_some() {
            return BridgeAction::Stop;
        }
        match serialized {
            Ok(text) => BridgeAction::Send(text),
            Err(_) => {
                self.ended = Some(BridgeEnd::SendFailed);
                BridgeAction::Stop
            },
        }
    }

    /// One step of the bridge.
    ///
    /// A close frame or the closure of the transport ends the session, and
    /// so does a failed send; a read error and any other frame are passed
    /// over. A batch always goes out as one frame that holds the JSON array
    /// of its lines, and the bridge runs on. When the queue has no producer
    /// left, the bridge asks for a close frame and ends. Once ended, every
    /// step answers `Stop`.
    pub fn mediate_messages(&mut self, event: BridgeEvent) -> (action: BridgeAction)
        ensures
            (final(self)@, action@) == bridge_step(old(self)@, event@, frame_text(event@)),
    {
        if self.ended.is_some() {
            return BridgeAction::Stop;
        }
        match event {
            BridgeEvent::Inbound(Inbound::Closed) => {
                self.ended = Some(BridgeEnd::ClientClosed);
                BridgeAction::Stop
            },
            BridgeEvent::Inbound(Inbound::ReadError) => BridgeAction::Wait,
            BridgeEvent::Inbound(Inbound::Frame { close }) => {
                if close {
                    self.ended = Some(BridgeEnd::ClientClosed);
                    BridgeAction::Stop
                } else {
                    BridgeAction::Wait
                }
            },
            BridgeEvent::Lines(None) => {
                self.ended = Some(BridgeEnd::TailerDone);
                BridgeAction::Close
            },
            BridgeEvent::Lines(Some(logs)) => {
                let serialized = to_json(&logs);
                self.forward(serialized)
            },
            BridgeEvent::SendFailed => {
                self.ended = Some(BridgeEnd::SendFailed);
                BridgeAction::Stop
            },
        }
    }
}

} // verus!
