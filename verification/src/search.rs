//! The paginator: answers a bounded range query over one stream.
//!
//! The paginator walks the range in pages. It never touches the store
//! itself: [`RangePaginator::request`] says which page to read, and
//! [`search_logs`] takes the page that came back and answers with the next
//! paginator, the finished result, or a failure.

use crate::entry::{flatten_xrange, keeps, lemma_matching_keeps, lines_of, page_lines};
use crate::entry::{lemma_matching_none, EntryModel};
use crate::store::{RangeRequest, RangeRequestModel, StoreReply, StoreReplyModel, StreamModel};
use vstd::prelude::*;
use vstd::string::StringExecFns;

verus! {

/// The most entries that one page read asks for.
pub const PAGE_SIZE: usize = 1000;

/// The most lines that a search returns.
pub const RESULT_CAP: usize = 1000;

/// A range query: the first and the last millisecond of the range, both
/// included, and the text that a line must contain, if any.
#[derive(Debug, Clone, PartialEq, Eq)]
pub struct SearchParams {
    pub start: i64,
    pub end: i64,
    pub term: Option<String>,
}

/// The state of one search between two page reads.
#[derive(Debug, PartialEq, Eq)]
pub struct RangePaginator {
    stream: String,
    start_at: String,
    end_at: i64,
    term: Option<String>,
    reply: Vec<String>,
}

/// What a search does after a page came back.
#[derive(Debug, PartialEq, Eq)]
pub enum SearchStep {
    /// Read the page that this paginator asks for, and go on with it.
    Next(RangePaginator),
    /// The search is over; these are its lines.
    Done(Vec<String>),
    /// The store failed; the lines gathered so far are discarded.
    Failed,
}

/// Mathematical model of a [`RangePaginator`].
pub struct PagerModel {
    pub stream: Seq<char>,
    pub start_at: Seq<char>,
    pub end_at: int,
    pub term: Option<Seq<char>>,
    pub reply: Seq<Seq<char>>,
}

/// Mathematical model of a [`SearchStep`].
pub enum SearchStepModel {
    Next(PagerModel),
    Done(Seq<Seq<char>>),
    Failed,
}

impl View for RangePaginator {
    type V = PagerModel;

    closed spec fn view(&self) -> PagerModel {
        PagerModel {
            stream: self.stream@,
            start_at: self.start_at@,
            end_at: self.end_at as int,
            term: self.term.deep_view(),
            reply: self.reply.deep_view(),
        }
    }
}

impl View for SearchStep {
    type V = SearchStepModel;

    open spec fn view(&self) -> SearchStepModel {
        match self {
            SearchStep::Next(pager) => SearchStepModel::Next(pager@),
            SearchStep::Done(lines) => SearchStepModel::Done(lines.deep_view()),
            SearchStep::Failed => SearchStepModel::Failed,
        }
    }
}

/// The character of one decimal digit.
pub open spec fn digit_char(d: nat) -> char {
    if d == 0 {
        '0'
    } else if d == 1 {
        '1'
    } else if d == 2 {
        '2'
    } else if d == 3 {
        '3'
    } else if d == 4 {
        '4'
    } else if d == 5 {
        '5'
    } else if d == 6 {
        '6'
    } else if d == 7 {
        '7'
    } else if d == 8 {
        '8'
    } else {
        '9'
    }
}

/// The decimal digits of a natural number, without leading zeros.
pub open spec fn decimal_nat(n: nat) -> Seq<char>
    decreases n,
{
    if n < 10 {
        seq![digit_char(n)]
    } else {
        decimal_nat(n / 10).push(digit_char(n % 10))
    }
}

/// The decimal text of an integer: a minus sign before the digits of a
/// negative one.
pub open spec fn decimal(n: int) -> Seq<char> {
    if n < 0 {
        seq!['-'] + decimal_nat((-n) as nat)
    } else {
        decimal_nat(n as nat)
    }
}

/// The ID at which a search from the millisecond `start` begins: that
/// millisecond with sequence number 0.
pub open spec fn start_cursor(start: int) -> Seq<char> {
    decimal(start) + seq!['-', '0']
}

/// The paginator with which a search begins.
pub open spec fn pager_start(log_stream: Seq<char>, start: int, end: int, term: Option<Seq<char>>)
    -> PagerModel {
    PagerModel {
        stream: log_stream,
        start_at: start_cursor(start),
        end_at: end,
        term,
        reply: Seq::empty(),
    }
}

/// The page that a paginator asks for.
pub open spec fn range_request(pager: PagerModel) -> RangeRequestModel {
    RangeRequestModel {
        stream: pager.stream,
        start: pager.start_at,
        end: pager.end_at,
        count: PAGE_SIZE as nat,
    }
}

/// The first `RESULT_CAP` lines, or all of them where there are fewer.
pub open spec fn capped(lines: Seq<Seq<char>>) -> Seq<Seq<char>> {
    if lines.len() > RESULT_CAP {
        lines.take(RESULT_CAP as int)
    } else {
        lines
    }
}

/// Whether every one of the lines passes the filter.
pub open spec fn all_keep(lines: Seq<Seq<char>>, term: Option<Seq<char>>) -> bool {
    forall|i: int| 0 <= i < lines.len() ==> keeps(#[trigger] lines[i], term)
}

/// Whether every line gathered so far passes the filter.
pub open spec fn pager_wf(pager: PagerModel) -> bool {
    all_keep(pager.reply, pager.term)
}

/// One step of a search, from the paginator and the page that came back.
///
/// The search ends with what it has gathered when the page is empty, or when
/// its last ID is the cursor itself. Otherwise the cursor moves to that ID
/// and the lines of the page join the result; the search then ends when the
/// result holds more than `RESULT_CAP` lines or the page was not full.
pub open spec fn search_step(pager: PagerModel, page: StoreReplyModel) -> SearchStepModel {
    match page {
        StoreReplyModel::Failed => SearchStepModel::Failed,
        StoreReplyModel::Entries(entries) => if entries.len() == 0 || entries.last().id
            == pager.start_at {
            SearchStepModel::Done(capped(pager.reply))
        } else {
            let reply = pager.reply + page_lines(entries, pager.term);
            if reply.len() > RESULT_CAP || entries.len() < PAGE_SIZE {
                SearchStepModel::Done(capped(reply))
            } else {
                SearchStepModel::Next(PagerModel { start_at: entries.last().id, reply, ..pager })
            }
        },
    }
}

/// The result of a search that reads its pages from `stream`, if the search
/// ends within `reads` page reads.
pub open spec fn search_run(stream: StreamModel, pager: PagerModel, reads: nat) -> Option<
    Seq<Seq<char>>,
>
    decreases reads,
{
    if reads == 0 {
        None
    } else {
        match search_step(
            pager,
            StoreReplyModel::Entries(stream.range_reply(range_request(pager))),
        ) {
            SearchStepModel::Next(next) => search_run(stream, next, (reads - 1) as nat),
            SearchStepModel::Done(lines) => Some(lines),
            SearchStepModel::Failed => None,
        }
    }
}

/// A search that has ended within some number of page reads has the same
/// result within any greater number.
pub proof fn lemma_search_run_more(stream: StreamModel, pager: PagerModel, reads: nat, more: nat)
    requires
        reads <= more,
        search_run(stream, pager, reads) is Some,
    ensures
        search_run(stream, pager, more) == search_run(stream, pager, reads),
    decreases reads,
{
    match search_step(pager, StoreReplyModel::Entries(stream.range_reply(range_request(pager)))) {
        SearchStepModel::Next(next) => {
            lemma_search_run_more(stream, next, (reads - 1) as nat, (more - 1) as nat);
        },
        _ => {},
    }
}

/// How many entries of the stream a search has still before it: those in
/// its range whose ID comes after its cursor.
pub open spec fn entries_ahead(stream: StreamModel, pager: PagerModel) -> nat {
    stream.count_between(
        stream.entries,
        (stream.rank)(pager.start_at),
        (stream.last_of)(pager.end_at),
    )
}

/// The cursor only moves forward: a page read that does not end the search
/// leaves the cursor at a later ID, with fewer entries of the range after it
/// than before.
pub proof fn lemma_search_cursor_advances(stream: StreamModel, pager: PagerModel)
    requires
        stream.wf(),
        search_step(
            pager,
            StoreReplyModel::Entries(stream.range_reply(range_request(pager))),
        ) is Next,
    ensures
        ({
            let next = search_step(
                pager,
                StoreReplyModel::Entries(stream.range_reply(range_request(pager))),
            )->Next_0;
            &&& (stream.rank)(pager.start_at) < (stream.rank)(next.start_at)
            &&& next.end_at == pager.end_at
            &&& entries_ahead(stream, next) < entries_ahead(stream, pager)
        }),
{
    let request = range_request(pager);
    let from = (stream.rank)(pager.start_at);
    let upto = (stream.last_of)(pager.end_at);
    let found = stream.hits(stream.entries, request);
    let page = stream.range_reply(request);
    let last = page.last();
    let to = (stream.rank)(last.id);
    stream.lemma_hits_members(stream.entries, request);
    assert(last == found[page.len() - 1]);
    assert(stream.in_range(request, found[page.len() - 1].id));
    assert(stream.entries.contains(last));
    let i = choose|i: int| 0 <= i < stream.entries.len() && stream.entries[i] == last;
    assert(from < (stream.rank)(stream.entries[i].id) <= to && (stream.rank)(stream.entries[i].id)
        <= upto);
    stream.lemma_count_between_falls(stream.entries, from, to, upto);
}

/// A search never stalls: over any stream and for any range it ends within
/// one page read more than there are entries of the range after its cursor,
/// also where a whole page shares one ID.
pub proof fn lemma_search_terminates(stream: StreamModel, pager: PagerModel)
    requires
        stream.wf(),
    ensures
        search_run(stream, pager, entries_ahead(stream, pager) + 1) is Some,
        entries_ahead(stream, pager) <= stream.entries.len(),
    decreases entries_ahead(stream, pager),
{
    let from = (stream.rank)(pager.start_at);
    let upto = (stream.last_of)(pager.end_at);
    stream.lemma_count_between_falls(stream.entries, from, from, upto);
    match search_step(pager, StoreReplyModel::Entries(stream.range_reply(range_request(pager)))) {
        SearchStepModel::Next(next) => {
            lemma_search_cursor_advances(stream, pager);
            lemma_search_terminates(stream, next);
            lemma_search_run_more(
                stream,
                next,
                entries_ahead(stream, next) + 1,
                entries_ahead(stream, pager),
            );
        },
        _ => {},
    }
}

/// Whatever the stream holds, a search returns at most `RESULT_CAP` lines,
/// and each of them contains the term where one was given.
pub proof fn lemma_search_result(stream: StreamModel, pager: PagerModel, reads: nat)
    requires
        pager_wf(pager),
        search_run(stream, pager, reads) is Some,
    ensures
        search_run(stream, pager, reads)->Some_0.len() <= RESULT_CAP,
        all_keep(search_run(stream, pager, reads)->Some_0, pager.term),
    decreases reads,
{
    let page = stream.range_reply(range_request(pager));
    lemma_capped(pager.reply, pager.term);
    lemma_step_keeps(pager, page);
    match search_step(pager, StoreReplyModel::Entries(page)) {
        SearchStepModel::Next(next) => {
            lemma_search_result(stream, next, (reads - 1) as nat);
        },
        _ => {},
    }
}

/// A page adds only lines that pass the filter.
pub proof fn lemma_step_keeps(pager: PagerModel, entries: Seq<EntryModel>)
    requires
        pager_wf(pager),
    ensures
        all_keep(pager.reply + page_lines(entries, pager.term), pager.term),
        all_keep(capped(pager.reply + page_lines(entries, pager.term)), pager.term),
{
    let added = page_lines(entries, pager.term);
    let reply = pager.reply + added;
    lemma_matching_keeps(lines_of(entries), pager.term);
    assert forall|i: int| 0 <= i < reply.len() implies keeps(#[trigger] reply[i], pager.term) by {
        if i < pager.reply.len() {
            assert(reply[i] == pager.reply[i]);
        } else {
            assert(reply[i] == added[i - pager.reply.len()]);
        }
    }
    lemma_capped(reply, pager.term);
}

/// Over a range that holds less than a page, a search from its start takes
/// one page read and returns the lines of the entries in range, in stream
/// order, cut to `RESULT_CAP`: those that contain the term, or every decoded
/// line where no term is given. The one exception is a range whose last
/// entry has the very ID at which the search starts: that search returns
/// nothing.
pub proof fn lemma_search_short_range(
    stream: StreamModel,
    log_stream: Seq<char>,
    start: int,
    end: int,
    term: Option<Seq<char>>,
)
    requires
        stream.hits(
            stream.entries,
            range_request(pager_start(log_stream, start, end, term)),
        ).len() < PAGE_SIZE,
    ensures
        ({
            let pager = pager_start(log_stream, start, end, term);
            let found = stream.hits(stream.entries, range_request(pager));
            &&& search_run(stream, pager, 1) == Some(
                if found.len() == 0 || found.last().id == start_cursor(start) {
                    Seq::empty()
                } else {
                    capped(page_lines(found, term))
                },
            )
            &&& term is None ==> page_lines(found, term) == lines_of(found)
        }),
{
    let pager = pager_start(log_stream, start, end, term);
    let found = stream.hits(stream.entries, range_request(pager));
    assert(stream.range_reply(range_request(pager)) == found);
    assert(pager.reply + page_lines(found, term) =~= page_lines(found, term));
    assert(capped(pager.reply) =~= Seq::<Seq<char>>::empty());
    if term is None {
        lemma_matching_none(lines_of(found));
    }
}

/// The `{}` format of an `i64`: its decimal text.
#[verifier::external_body]
fn decimal_text(n: i64) -> (text: String)
    ensures
        text@ == decimal(n as int),
{
    format!("{}", n)
}

impl RangePaginator {
    #[verifier::type_invariant]
    closed spec fn inv(self) -> bool {
        pager_wf(self@)
    }

    /// The paginator with which the search of `log_stream` for `params`
    /// begins: its cursor is the first ID of the millisecond `params.start`,
    /// and it has gathered nothing.
    pub fn new(log_stream: String, params: SearchParams) -> (pager: Self)
        ensures
            pager@ == pager_start(
                log_stream@,
                params.start as int,
                params.end as int,
                params.term.deep_view(),
            ),
            pager_wf(pager@),
    {
        proof {
            reveal_strlit("-0");
            assert("-0"@ =~= seq!['-', '0']);
        }
        let start_at = decimal_text(params.start).concat("-0");
        let reply: Vec<String> = Vec::new();
        assert(reply.deep_view() =~= Seq::<Seq<char>>::empty());
        RangePaginator {
            stream: log_stream,
            start_at,
            end_at: params.end,
            term: params.term,
            reply,
        }
    }

    /// The page to read next.
    pub fn request(&self) -> (request: RangeRequest)
        ensures
            request@ == range_request(self@),
    {
        RangeRequest {
            stream: self.stream.clone(),
            start: self.start_at.clone(),
            end: self.end_at,
            count: PAGE_SIZE,
        }
    }
}

/// Capping keeps the cap, and keeps the filter.
pub proof fn lemma_capped(lines: Seq<Seq<char>>, term: Option<Seq<char>>)
    ensures
        capped(lines).len() <= RESULT_CAP,
        all_keep(lines, term) ==> all_keep(capped(lines), term),
{
    if all_keep(lines, term) {
        assert forall|i: int| 0 <= i < capped(lines).len() implies keeps(
            #[trigger] capped(lines)[i],
            term,
        ) by {
            assert(capped(lines)[i] == lines[i]);
        }
    }
}

/// Cuts a result down to its first `RESULT_CAP` lines.
fn cap_result(lines: Vec<String>) -> (r: Vec<String>)
    ensures
        r.deep_view() == capped(lines.deep_view()),
        r.len() <= RESULT_CAP,
{
    let mut lines = lines;
    let ghost before = lines.deep_view();
    lines.truncate(RESULT_CAP);
    assert(lines.deep_view() =~= capped(before));
    lines
}

/// One step of a search: what to do now that `page` came back for the
/// request of `pager`.
///
/// A failed read fails the search, and what was gathered is discarded. A
/// finished search returns at most `RESULT_CAP` lines, each of which contains
/// the term where one was given.
pub fn search_logs(pager: RangePaginator, page: StoreReply) -> (step: SearchStep)
    ensures
        step@ == search_step(pager@, page@),
        step matches SearchStep::Next(next) ==> pager_wf(next@),
        step matches SearchStep::Done(lines) ==> lines.len() <= RESULT_CAP && all_keep(
            lines.deep_view(),
            pager@.term,
        ),
{
    proof {
        use_type_invariant(&pager);
    }
    let ghost model = pager@;
    proof {
        lemma_capped(model.reply, model.term);
    }
    let RangePaginator { stream, start_at, end_at, term, reply } = pager;
    let mut reply = reply;
    match page {
        StoreReply::Failed => SearchStep::Failed,
        StoreReply::Entries(xrange) => {
            let ghost entries = xrange.deep_view();
            if xrange.len() == 0 {
                return SearchStep::Done(cap_result(reply));
            }
            let returned_count = xrange.len();
            let new_start_at = xrange[xrange.len() - 1].id.clone();
            assert(new_start_at@ == entries.last().id);
            if new_start_at == start_at {
                return SearchStep::Done(cap_result(reply));
            }
            let mut data = flatten_xrange(xrange, &term);
            let ghost before = reply.deep_view();
            let ghost added = data.deep_view();
            reply.append(&mut data);
            assert(reply.deep_view() =~= before + added);
            proof {
                lemma_step_keeps(model, entries);
            }
            if reply.len() > RESULT_CAP || returned_count < PAGE_SIZE {
                SearchStep::Done(cap_result(reply))
            } else {
                SearchStep::Next(
                    RangePaginator { stream, start_at: new_start_at, end_at, term, reply },
                )
            }
        },
    }
}

} // verus!
