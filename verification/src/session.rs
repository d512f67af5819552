//! What holds across the components: of a tail session as a whole, a tailer
//! and a bridge joined by one queue, and of what entries hold.

use crate::bridge::{bridge_step, BridgeActionModel, BridgeEnd, BridgeEventModel, Inbound};
use crate::entry::{lines_of, EntryModel};
use crate::search::{search_step, PagerModel};
use crate::store::StoreReplyModel;
use crate::tail::{
    tail_request, tail_step, TailActionModel, TailEnd, TailEventModel, TailModel, TAIL_WAIT_MS,
};
use vstd::prelude::*;

verus! {

/// Whether what the transport yielded means that the client is gone.
pub open spec fn client_closed(inbound: Inbound) -> bool {
    inbound == Inbound::Closed || inbound == (Inbound::Frame { close: true })
}

/// When the client closes the transport, a running bridge ends and drops its
/// end of the queue without asking for a close frame.
pub proof fn lemma_close_ends_bridge(inbound: Inbound, text: Option<Seq<char>>)
    requires
        client_closed(inbound),
    ensures
        bridge_step(None, BridgeEventModel::Inbound(inbound), text) == (
            Some(BridgeEnd::ClientClosed),
            BridgeActionModel::Stop,
        ),
{
}

/// Cancellation reaches the tailer: once the queue is closed, the tailer
/// asks for no further read. Whatever comes in, it stops at once or hands
/// out one last batch, and stops when that push is refused. A read that is
/// under way waits no longer than `TAIL_WAIT_MS` milliseconds.
pub proof fn lemma_cancellation_propagates(tail: TailModel, event: TailEventModel)
    ensures
        !(tail_step(tail, event, true).1 is Read),
        tail_step(tail, event, true).1 is Push ==> tail_step(
            tail_step(tail, event, true).0,
            TailEventModel::PushFailed,
            true,
        ).1 == TailActionModel::Stop(TailEnd::PushFailed),
        tail_request(tail).block_ms == TAIL_WAIT_MS,
{
}

/// What entries hold never ends a session or fails a request, whether or
/// not their payloads are text: a running tailer hands out the lines of any
/// entries it reads and runs on, and a search fails on no page of entries.
pub proof fn lemma_content_never_fails(
    tail: TailModel,
    pager: PagerModel,
    entries: Seq<EntryModel>,
    queue_closed: bool,
)
    requires
        tail.ended is None,
        entries.len() > 0,
    ensures
        tail_step(
            tail,
            TailEventModel::Read(StoreReplyModel::Entries(entries)),
            queue_closed,
        ).1 == TailActionModel::Push(lines_of(entries)),
        tail_step(
            tail,
            TailEventModel::Read(StoreReplyModel::Entries(entries)),
            queue_closed,
        ).0.ended is None,
        !(search_step(pager, StoreReplyModel::Entries(entries)) is Failed),
{
}

} // verus!
