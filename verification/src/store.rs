//! What the components ask of the backing store, and what it answers.

use crate::entry::{Entry, EntryModel};
use vstd::prelude::*;

verus! {

/// A bounded read of the entries that come strictly after a cursor, waiting
/// up to `block_ms` milliseconds when none is there yet.
#[derive(Debug, Clone, PartialEq, Eq)]
pub struct ReadRequest {
    pub stream: String,
    pub cursor: String,
    pub count: usize,
    pub block_ms: usize,
}

/// A bounded read of the entries whose ID lies between `start` and the last
/// ID of the millisecond `end`, both included, in ascending order.
#[derive(Debug, Clone, PartialEq, Eq)]
pub struct RangeRequest {
    pub stream: String,
    pub start: String,
    pub end: i64,
    pub count: usize,
}

/// The outcome of one store read.
#[derive(Debug, Clone, PartialEq, Eq)]
pub enum StoreReply {
    /// The entries that the read returned, in stream order; possibly none.
    Entries(Vec<Entry>),
    /// The read call returned an error.
    Failed,
}

/// Mathematical model of a [`ReadRequest`].
pub struct ReadRequestModel {
    pub stream: Seq<char>,
    pub cursor: Seq<char>,
    pub count: nat,
    pub block_ms: nat,
}

/// Mathematical model of a [`RangeRequest`].
pub struct RangeRequestModel {
    pub stream: Seq<char>,
    pub start: Seq<char>,
    pub end: int,
    pub count: nat,
}

/// Mathematical model of a [`StoreReply`].
pub enum StoreReplyModel {
    Entries(Seq<EntryModel>),
    Failed,
}

impl View for ReadRequest {
    type V = ReadRequestModel;

    open spec fn view(&self) -> ReadRequestModel {
        ReadRequestModel {
            stream: self.stream@,
            cursor: self.cursor@,
            count: self.count as nat,
            block_ms: self.block_ms as nat,
        }
    }
}

impl View for RangeRequest {
    type V = RangeRequestModel;

    open spec fn view(&self) -> RangeRequestModel {
        RangeRequestModel {
            stream: self.stream@,
            start: self.start@,
            end: self.end as int,
            count: self.count as nat,
        }
    }
}

impl View for StoreReply {
    type V = StoreReplyModel;

    open spec fn view(&self) -> StoreReplyModel {
        match self {
            StoreReply::Entries(entries) => StoreReplyModel::Entries(entries.deep_view()),
            StoreReply::Failed => StoreReplyModel::Failed,
        }
    }
}

/// A stream as the store holds it: its entries in stream order, and the
/// order that the store puts on IDs.
pub struct StreamModel {
    /// The entries, oldest first.
    pub entries: Seq<EntryModel>,
    /// The place of an ID in the store's order of IDs.
    pub rank: spec_fn(Seq<char>) -> int,
    /// The place of the last ID that a millisecond can hold.
    pub last_of: spec_fn(int) -> int,
}

impl StreamModel {
    /// The store orders IDs totally, and holds the entries of a stream in
    /// ascending order of their IDs.
    pub open spec fn wf(self) -> bool {
        &&& forall|a: Seq<char>, b: Seq<char>|
            #[trigger] (self.rank)(a) == #[trigger] (self.rank)(b) ==> a == b
        &&& forall|i: int, j: int|
            0 <= i <= j < self.entries.len() ==> (self.rank)(#[trigger] self.entries[i].id) <= (
            self.rank)(#[trigger] self.entries[j].id)
    }

    /// Whether an ID lies in the range of a request.
    pub open spec fn in_range(self, request: RangeRequestModel, id: Seq<char>) -> bool {
        (self.rank)(request.start) <= (self.rank)(id) <= (self.last_of)(request.end)
    }

    /// Those of `entries` whose ID lies in the range of a request, in their
    /// order.
    pub open spec fn hits(self, entries: Seq<EntryModel>, request: RangeRequestModel) -> Seq<
        EntryModel,
    >
        decreases entries.len(),
    {
        if entries.len() == 0 {
            Seq::empty()
        } else if self.in_range(request, entries.last().id) {
            self.hits(entries.drop_last(), request).push(entries.last())
        } else {
            self.hits(entries.drop_last(), request)
        }
    }

    /// What a range read returns: the entries of the stream whose ID lies in
    /// the range, ascending, and no more of them than the request allows.
    pub open spec fn range_reply(self, request: RangeRequestModel) -> Seq<EntryModel> {
        let found = self.hits(self.entries, request);
        if found.len() > request.count {
            found.take(request.count as int)
        } else {
            found
        }
    }

    /// How many of `entries` have an ID after the place `after` and not
    /// after the place `upto`.
    pub open spec fn count_between(self, entries: Seq<EntryModel>, after: int, upto: int) -> nat
        decreases entries.len(),
    {
        if entries.len() == 0 {
            0
        } else if after < (self.rank)(entries.last().id) <= upto {
            self.count_between(entries.drop_last(), after, upto) + 1
        } else {
            self.count_between(entries.drop_last(), after, upto)
        }
    }

    /// Every entry that a request hits lies in its range and is one of the
    /// entries searched.
    pub proof fn lemma_hits_members(self, entries: Seq<EntryModel>, request: RangeRequestModel)
        ensures
            self.hits(entries, request).len() <= entries.len(),
            forall|i: int|
                0 <= i < self.hits(entries, request).len() ==> self.in_range(
                    request,
                    #[trigger] self.hits(entries, request)[i].id,
                ) && entries.contains(self.hits(entries, request)[i]),
        decreases entries.len(),
    {
        if entries.len() > 0 {
            let rest = entries.drop_last();
            self.lemma_hits_members(rest, request);
            let found = self.hits(entries, request);
            let earlier = self.hits(rest, request);
            assert forall|i: int| 0 <= i < found.len() implies self.in_range(
                request,
                #[trigger] found[i].id,
            ) && entries.contains(found[i]) by {
                if i < earlier.len() {
                    assert(found[i] == earlier[i]);
                    assert(self.in_range(request, earlier[i].id));
                    assert(rest.contains(earlier[i]));
                    let j = choose|j: int| 0 <= j < rest.len() && rest[j] == earlier[i];
                    assert(entries[j] == found[i]);
                } else {
                    assert(found[i] == entries.last());
                    assert(entries[entries.len() - 1] == found[i]);
                }
            }
        }
    }

    /// Fewer entries lie between a later place and `upto`: strictly fewer
    /// where an entry lies after the earlier place, not after the later one,
    /// and not after `upto`.
    pub proof fn lemma_count_between_falls(
        self,
        entries: Seq<EntryModel>,
        from: int,
        to: int,
        upto: int,
    )
        requires
            from <= to,
        ensures
            self.count_between(entries, to, upto) <= self.count_between(entries, from, upto),
            self.count_between(entries, from, upto) <= entries.len(),
            (exists|i: int|
                0 <= i < entries.len() && from < (self.rank)(#[trigger] entries[i].id) <= to && (
                self.rank)(entries[i].id) <= upto) ==> self.count_between(entries, to, upto)
                < self.count_between(entries, from, upto),
        decreases entries.len(),
    {
        if entries.len() > 0 {
            let rest = entries.drop_last();
            self.lemma_count_between_falls(rest, from, to, upto);
            if exists|i: int|
                0 <= i < entries.len() && from < (self.rank)(#[trigger] entries[i].id) <= to && (
                self.rank)(entries[i].id) <= upto {
                let i = choose|i: int|
                    0 <= i < entries.len() && from < (self.rank)(#[trigger] entries[i].id) <= to
                        && (self.rank)(entries[i].id) <= upto;
                if i < rest.len() {
                    assert(rest[i] == entries[i]);
                }
            }
        }
    }
}

} // verus!
