//! Request counters that a frontend publishes about the requests it serves.

use crate::http_headers;
use crate::http_headers::{first_value, read_value};
use crate::pylon_stats;
use crate::pylon_stats::write_stats_line;
use crate::text;
use vstd::prelude::*;

verus! {

pub const STATS_PATH: &'static str = "/pylon/v1/stats/stream";

pub const REQUEST_ID_HEADER: &'static str = "x-request-id";

pub const MODEL_HEADER: &'static str = "x-model";

pub const INPUT_TOKENS_HEADER: &'static str = "x-input-tokens";

/// The events that a slow subscriber can fall behind before it loses some.
pub const DEFAULT_CHANNEL_CAPACITY: usize = 1024;

/// How often an idle stream is kept alive, in seconds.
pub const PING_INTERVAL_SECS: u64 = 15;

/// What keeps an idle stream alive.
pub const PING_LINE: &'static str = "{\"v\":1,\"type\":\"ping\"}\n";

/// How a request is known to those who watch its counters.
#[derive(Debug, PartialEq, Eq)]
pub struct PylonRequestIdentity {
    pub request_id: String,
    pub model: String,
    pub input_tokens: u64,
}

impl Clone for PylonRequestIdentity {
    fn clone(&self) -> (r: Self)
        ensures
            r.request_id@ == self.request_id@,
            r.model@ == self.model@,
            r.input_tokens == self.input_tokens,
    {
        PylonRequestIdentity {
            request_id: self.request_id.clone(),
            model: self.model.clone(),
            input_tokens: self.input_tokens,
        }
    }
}

/// The text of a header's first value without white space around it, if there
/// is any left.
pub open spec fn nonempty_text(
    contents: Map<Seq<char>, Seq<Seq<u8>>>,
    name: Seq<char>,
) -> Option<Seq<char>> {
    let values = http_headers::values_of(contents, name);
    if values.len() == 0 {
        None
    } else {
        match http_headers::header_text(values[0]) {
            Some(value) => if text::trimmed(value).len() > 0 {
                Some(text::trimmed(value))
            } else {
                None
            },
            None => None,
        }
    }
}

fn nonempty_header(
    headers: &axum::http::HeaderMap<axum::http::HeaderValue>,
    name: &str,
) -> (r: Option<String>)
    ensures
        match r {
            Some(value) => nonempty_text(http_headers::header_contents(*headers), name@) == Some(
                value@,
            ),
            None => nonempty_text(http_headers::header_contents(*headers), name@) is None,
        },
{
    match first_value(headers, name) {
        None => None,
        Some(bytes) => match read_value(bytes.as_slice()) {
            None => None,
            Some(value) => {
                let value = text::trim(value.as_str());
                if text::is_blank(value.as_str()) {
                    None
                } else {
                    Some(value)
                }
            },
        },
    }
}

/// Whether `r` is the identity that headers give a request, if they do.
pub open spec fn identity_of(
    contents: Map<Seq<char>, Seq<Seq<u8>>>,
    r: Option<PylonRequestIdentity>,
) -> bool {
    let request_id = nonempty_text(contents, REQUEST_ID_HEADER@);
    let model = nonempty_text(contents, MODEL_HEADER@);
    let tokens = nonempty_text(contents, INPUT_TOKENS_HEADER@);
    let count = match tokens {
        Some(tokens) => text::unsigned_reading(tokens, u64::MAX as nat),
        None => None,
    };
    match r {
        Some(identity) => {
            &&& request_id == Some(identity.request_id@)
            &&& model == Some(identity.model@)
            &&& count == Some(identity.input_tokens as nat)
        },
        None => request_id is None || model is None || count is None,
    }
}

impl PylonRequestIdentity {
    pub fn from_headers(headers: &axum::http::HeaderMap<axum::http::HeaderValue>) -> (r: Option<
        Self,
    >)
        ensures
            identity_of(http_headers::header_contents(*headers), r),
    {
        let request_id = match nonempty_header(headers, REQUEST_ID_HEADER) {
            Some(request_id) => request_id,
            None => {
                return None;
            },
        };
        let model = match nonempty_header(headers, MODEL_HEADER) {
            Some(model) => model,
            None => {
                return None;
            },
        };
        let tokens = match nonempty_header(headers, INPUT_TOKENS_HEADER) {
            Some(tokens) => tokens,
            None => {
                return None;
            },
        };
        match text::read_unsigned(tokens.as_str(), u64::MAX) {
            Some(input_tokens) => Some(PylonRequestIdentity { request_id, model, input_tokens }),
            None => None,
        }
    }
}

/// What an event about a request tells.
#[derive(Clone, Copy, Debug, PartialEq, Eq, Structural)]
pub struct StatsEvent {
    pub tokens_processed: Option<u64>,
    pub tokens_generated: Option<u64>,
    pub finished: bool,
}

/// The line for the subscribers about an event, if there are any.
pub fn publish(identity: &PylonRequestIdentity, event: &StatsEvent, subscribers: usize) -> (r:
    Result<Option<Vec<u8>>, ()>)
    ensures
        if subscribers == 0 {
            r is Ok && r->Ok_0 is None
        } else {
            r is Ok && r->Ok_0 is Some && r->Ok_0->0@ == pylon_stats::stats_line(
                identity.request_id@,
                identity.model@,
                event.tokens_processed,
                event.tokens_generated,
                event.finished,
            )
        },
{
    if subscribers == 0 {
        return Ok(None);
    }
    match write_stats_line(
        identity.request_id.as_str(),
        identity.model.as_str(),
        event.tokens_processed,
        event.tokens_generated,
        event.finished,
    ) {
        Some(line) => Ok(Some(line)),
        None => Err(()),
    }
}

/// The counters of one request.
#[derive(Clone, Copy, Debug, PartialEq, Eq, Structural)]
pub struct PylonRequestStats {
    pub input_tokens: u64,
    pub tokens_processed: Option<u64>,
    pub tokens_generated: Option<u64>,
}

pub open spec fn count_of(counter: Option<u64>) -> nat {
    match counter {
        Some(count) => count as nat,
        None => 0,
    }
}

/// The total after `more`, which does not go beyond what fits.
pub open spec fn total_after(counter: Option<u64>, more: nat) -> u64 {
    if count_of(counter) + more > u64::MAX {
        u64::MAX
    } else {
        (count_of(counter) + more) as u64
    }
}

impl PylonRequestStats {
    pub open spec fn fresh(input_tokens: u64) -> Self {
        PylonRequestStats { input_tokens, tokens_processed: None, tokens_generated: None }
    }

    /// Whether `more` generated tokens raise the counter.
    pub open spec fn raises(self, more: nat) -> bool {
        total_after(self.tokens_generated, more) > count_of(self.tokens_generated)
    }

    /// The counters after `more` tokens were generated.
    pub open spec fn observed(self, more: nat) -> Self {
        PylonRequestStats {
            tokens_processed: match self.tokens_processed {
                Some(count) => Some(count),
                None => Some(self.input_tokens),
            },
            tokens_generated: if self.raises(more) {
                Some(total_after(self.tokens_generated, more))
            } else {
                self.tokens_generated
            },
            ..self
        }
    }

    /// The event about `more` generated tokens: what changed, if anything did.
    pub open spec fn event(self, more: nat) -> Option<StatsEvent> {
        let tokens_processed = if self.tokens_processed is None {
            Some(self.input_tokens)
        } else {
            None
        };
        let tokens_generated = if self.raises(more) {
            Some(total_after(self.tokens_generated, more))
        } else {
            None
        };
        if tokens_processed is Some || tokens_generated is Some {
            Some(StatsEvent { tokens_processed, tokens_generated, finished: false })
        } else {
            None
        }
    }

    /// The last event, which tells all.
    pub open spec fn last_event(self) -> StatsEvent {
        StatsEvent {
            tokens_processed: self.tokens_processed,
            tokens_generated: self.tokens_generated,
            finished: true,
        }
    }

    pub fn new(identity: &PylonRequestIdentity) -> (r: Self)
        ensures
            r == Self::fresh(identity.input_tokens),
    {
        PylonRequestStats {
            input_tokens: identity.input_tokens,
            tokens_processed: None,
            tokens_generated: None,
        }
    }

    /// Counts newly generated tokens. Returns the event to publish, if any.
    pub fn observe(&mut self, generated_tokens: usize) -> (r: Option<StatsEvent>)
        ensures
            *final(self) == old(self).observed(generated_tokens as nat),
            r == old(self).event(generated_tokens as nat),
    {
        let tokens_processed: Option<u64> = if self.tokens_processed.is_none() {
            self.tokens_processed = Some(self.input_tokens);
            Some(self.input_tokens)
        } else {
            None
        };
        let previous: u64 = match self.tokens_generated {
            Some(count) => count,
            None => 0,
        };
        let total: u64 = previous.saturating_add(generated_tokens as u64);
        let tokens_generated: Option<u64> = if total > previous {
            self.tokens_generated = Some(total);
            Some(total)
        } else {
            None
        };
        if tokens_processed.is_some() || tokens_generated.is_some() {
            Some(StatsEvent { tokens_processed, tokens_generated, finished: false })
        } else {
            None
        }
    }

    /// The event to publish when the request is over.
    pub fn finish(self) -> (r: StatsEvent)
        ensures
            r == self.last_event(),
    {
        StatsEvent {
            tokens_processed: self.tokens_processed,
            tokens_generated: self.tokens_generated,
            finished: true,
        }
    }
}

/// The counters after some observations.
pub open spec fn counters_after(stats: PylonRequestStats, observations: Seq<nat>) -> PylonRequestStats
    decreases observations.len(),
{
    if observations.len() == 0 {
        stats
    } else {
        counters_after(stats, observations.drop_last()).observed(observations.last())
    }
}

/// The events of some observations, in order.
pub open spec fn events_of(stats: PylonRequestStats, observations: Seq<nat>) -> Seq<StatsEvent>
    decreases observations.len(),
{
    if observations.len() == 0 {
        Seq::empty()
    } else {
        let before = events_of(stats, observations.drop_last());
        match counters_after(stats, observations.drop_last()).event(observations.last()) {
            Some(event) => before.push(event),
            None => before,
        }
    }
}

/// All events of a request from its beginning to its end.
pub open spec fn request_events(input_tokens: u64, observations: Seq<nat>) -> Seq<StatsEvent> {
    let stats = PylonRequestStats::fresh(input_tokens);
    events_of(stats, observations).push(counters_after(stats, observations).last_event())
}

proof fn lemma_events(input_tokens: u64, observations: Seq<nat>)
    ensures
        ({
            let stats = PylonRequestStats::fresh(input_tokens);
            let events = events_of(stats, observations);
            let after = counters_after(stats, observations);
            &&& after.input_tokens == input_tokens
            &&& after.tokens_processed == if observations.len() == 0 {
                None
            } else {
                Some(input_tokens)
            }
            &&& observations.len() > 0 ==> events.len() > 0 && events[0].tokens_processed == Some(
                input_tokens,
            )
            &&& forall|i: int|
                0 <= i < events.len() ==> !(#[trigger] events[i]).finished && (i > 0
                    ==> events[i].tokens_processed is None)
            &&& after.tokens_generated is Some ==> exists|i: int|
                0 <= i < events.len() && (#[trigger] events[i]).tokens_generated
                    == after.tokens_generated
            &&& forall|i: int|
                0 <= i < events.len() && (#[trigger] events[i]).tokens_generated is Some
                    ==> after.tokens_generated is Some && events[i].tokens_generated->0
                    <= after.tokens_generated->0
            &&& forall|i: int, j: int|
                0 <= i < j < events.len() && (#[trigger] events[i]).tokens_generated is Some && (
                #[trigger] events[j]).tokens_generated is Some ==> events[i].tokens_generated->0
                    < events[j].tokens_generated->0
        }),
    decreases observations.len(),
{
    let stats = PylonRequestStats::fresh(input_tokens);
    if observations.len() > 0 {
        lemma_events(input_tokens, observations.drop_last());
        let before = events_of(stats, observations.drop_last());
        let events = events_of(stats, observations);
        let counters = counters_after(stats, observations.drop_last());
        let after = counters_after(stats, observations);
        assert(forall|i: int| 0 <= i < before.len() ==> #[trigger] events[i] == before[i]);
        if after.tokens_generated is Some {
            if after.tokens_generated == counters.tokens_generated {
                let i = choose|i: int|
                    0 <= i < before.len() && (#[trigger] before[i]).tokens_generated
                        == counters.tokens_generated;
                assert(events[i].tokens_generated == after.tokens_generated);
            } else {
                assert(events[before.len() as int].tokens_generated == after.tokens_generated);
            }
        }
    }
}

/// The events of a request tell a consistent story: the first one tells how
/// many tokens were processed and no other but the last repeats it, no counter
/// ever goes back, and exactly the last one says that the request is over and
/// tells the totals that were told before.
pub proof fn request_events_are_consistent(input_tokens: u64, observations: Seq<nat>)
    ensures
        ({
            let events = request_events(input_tokens, observations);
            let last = events.last();
            &&& events.len() > 0
            &&& last.finished
            &&& forall|i: int| 0 <= i < events.len() - 1 ==> !(#[trigger] events[i]).finished
            &&& observations.len() > 0 ==> events[0].tokens_processed == Some(input_tokens)
                && last.tokens_processed == Some(input_tokens)
            &&& forall|i: int|
                0 < i < events.len() - 1 ==> (#[trigger] events[i]).tokens_processed is None
            &&& last.tokens_generated is Some ==> exists|i: int|
                0 <= i < events.len() - 1 && (#[trigger] events[i]).tokens_generated
                    == last.tokens_generated
            &&& forall|i: int|
                0 <= i < events.len() && (#[trigger] events[i]).tokens_generated is Some
                    ==> last.tokens_generated is Some && events[i].tokens_generated->0
                    <= last.tokens_generated->0
            &&& forall|i: int, j: int|
                0 <= i < j < events.len() && (#[trigger] events[i]).tokens_generated is Some && (
                #[trigger] events[j]).tokens_generated is Some ==> events[i].tokens_generated->0
                    <= events[j].tokens_generated->0
        }),
{
    lemma_events(input_tokens, observations);
    let stats = PylonRequestStats::fresh(input_tokens);
    let before = events_of(stats, observations);
    let events = request_events(input_tokens, observations);
    assert(forall|i: int| 0 <= i < before.len() ==> #[trigger] events[i] == before[i]);
    let after = counters_after(stats, observations);
    if after.tokens_generated is Some {
        let i = choose|i: int|
            0 <= i < before.len() && (#[trigger] before[i]).tokens_generated
                == after.tokens_generated;
        assert(events[i].tokens_generated == after.tokens_generated);
    }
}

/// The sum of some observations.
pub open spec fn sum_of(observations: Seq<nat>) -> nat
    decreases observations.len(),
{
    if observations.len() == 0 {
        0
    } else {
        sum_of(observations.drop_last()) + observations.last()
    }
}

/// The last event tells how many tokens were generated in all, or the largest
/// count that fits if there were more.
pub proof fn last_event_tells_the_sum(input_tokens: u64, observations: Seq<nat>)
    ensures
        count_of(request_events(input_tokens, observations).last().tokens_generated) == if sum_of(
            observations,
        ) <= u64::MAX {
            sum_of(observations)
        } else {
            u64::MAX as nat
        },
    decreases observations.len(),
{
    if observations.len() > 0 {
        last_event_tells_the_sum(input_tokens, observations.drop_last());
    }
}

/// The routes that serve the counters.
pub fn route_docs() -> (r: Vec<String>)
    ensures
        r@.len() == 1,
        r@[0]@ == "GET "@ + STATS_PATH@,
{
    let mut doc = "GET ".to_owned();
    doc.append(STATS_PATH);
    let mut docs: Vec<String> = Vec::new();
    docs.push(doc);
    docs
}

/// What may happen to a stream of counters.
#[derive(Debug)]
pub enum StreamEvent {
    Line(Vec<u8>),
    /// The subscriber was too slow and has lost some events.
    Lagged,
    /// There will be no more events.
    Closed,
    /// Nothing has happened for a while.
    Idle,
    Shutdown,
}

/// What a stream of counters does next.
#[derive(Debug)]
pub enum StreamAction {
    Send(Vec<u8>),
    Nothing,
    End,
}

/// The first thing on every stream, so that it is ready at once.
pub fn stream_opening() -> (r: Vec<u8>)
    ensures
        r@ == pylon_stats::ascii(PING_LINE@),
{
    let mut line: Vec<u8> = Vec::new();
    text::push_text(&mut line, PING_LINE);
    assert(line@ =~= pylon_stats::ascii(PING_LINE@));
    line
}

/// What a stream does about an event.
pub fn stream_step(event: StreamEvent) -> (r: StreamAction)
    ensures
        match event {
            StreamEvent::Line(line) => r == StreamAction::Send(line),
            StreamEvent::Lagged => r is Nothing,
            StreamEvent::Closed => r is End,
            StreamEvent::Idle => r matches StreamAction::Send(line) && line@ == pylon_stats::ascii(
                PING_LINE@,
            ),
            StreamEvent::Shutdown => r is End,
        },
{
    match event {
        StreamEvent::Line(line) => StreamAction::Send(line),
        StreamEvent::Lagged => StreamAction::Nothing,
        StreamEvent::Closed => StreamAction::End,
        StreamEvent::Idle => StreamAction::Send(stream_opening()),
        StreamEvent::Shutdown => StreamAction::End,
    }
}

/// A request is known by its headers just if they give its id, its model and a
/// count of input tokens, and then it is known by what they give.
pub proof fn identities_come_from_headers(
    contents: Map<Seq<char>, Seq<Seq<u8>>>,
    r: Option<PylonRequestIdentity>,
)
    requires
        identity_of(contents, r),
    ensures
        ({
            let request_id = nonempty_text(contents, "x-request-id"@);
            let model = nonempty_text(contents, "x-model"@);
            let tokens = nonempty_text(contents, "x-input-tokens"@);
            let counted = tokens is Some && text::unsigned_reading(
                tokens->0,
                u64::MAX as nat,
            ) is Some;
            &&& r is Some <==> request_id is Some && model is Some && counted
            &&& r is Some ==> {
                &&& r->0.request_id@ == request_id->0
                &&& r->0.model@ == model->0
                &&& Some(r->0.input_tokens as nat) == text::unsigned_reading(
                    tokens->0,
                    u64::MAX as nat,
                )
            }
        }),
{
}

/// What a header gives is the text of its first value without the spaces around
/// it, if anything is left.
pub proof fn first_values_count(contents: Map<Seq<char>, Seq<Seq<u8>>>, name: Seq<char>)
    ensures
        ({
            let values = http_headers::values_of(contents, name);
            let given = nonempty_text(contents, name);
            &&& values.len() == 0 ==> given is None
            &&& values.len() > 0 && http_headers::header_text(values[0]) is None ==> given is None
            &&& values.len() > 0 && http_headers::header_text(values[0]) is Some ==> {
                let trimmed = text::trimmed(http_headers::header_text(values[0])->0);
                &&& trimmed.len() == 0 ==> given is None
                &&& trimmed.len() > 0 ==> given == Some(trimmed)
            }
        }),
{
}

/// Generated tokens are added to those before, as far as the count fits. The
/// first observation tells the processed tokens, and every observation that
/// raises the count tells the new count. One that tells nothing is no event.
pub proof fn observations_are_counted(stats: PylonRequestStats, more: nat)
    ensures
        ({
            let before: nat = if stats.tokens_generated is Some {
                stats.tokens_generated->0 as nat
            } else {
                0
            };
            let after = stats.observed(more);
            let event = stats.event(more);
            let total: nat = if before + more <= u64::MAX {
                before + more
            } else {
                u64::MAX as nat
            };
            let first = stats.tokens_processed is None;
            &&& after.input_tokens == stats.input_tokens
            &&& first ==> after.tokens_processed == Some(stats.input_tokens)
            &&& !first ==> after.tokens_processed == stats.tokens_processed
            &&& total > before ==> after.tokens_generated is Some && after.tokens_generated->0
                == total
            &&& total == before ==> after.tokens_generated == stats.tokens_generated
            &&& event is Some <==> first || total > before
            &&& event is Some ==> {
                &&& !event->0.finished
                &&& first ==> event->0.tokens_processed == Some(stats.input_tokens)
                &&& !first ==> event->0.tokens_processed is None
                &&& total > before ==> event->0.tokens_generated == after.tokens_generated
                &&& total == before ==> event->0.tokens_generated is None
            }
            &&& stats.last_event().finished
            &&& stats.last_event().tokens_processed == stats.tokens_processed
            &&& stats.last_event().tokens_generated == stats.tokens_generated
        }),
{
}

/// Before anything is observed nothing is counted.
pub proof fn counters_start_empty(input_tokens: u64)
    ensures
        PylonRequestStats::fresh(input_tokens).input_tokens == input_tokens,
        PylonRequestStats::fresh(input_tokens).tokens_processed is None,
        PylonRequestStats::fresh(input_tokens).tokens_generated is None,
{
}

} // verus!
