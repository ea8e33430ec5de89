//! Request counters for subscribers, and the latest observed state of the KV
//! cache.

use crate::quic::fingerprint;
use crate::text;
use vstd::prelude::*;

verus! {

/// The events that a slow subscriber can fall behind before it loses some.
pub const DEFAULT_STATS_CHANNEL_CAPACITY: usize = 1024;

/// One cumulative request-counter update for the stats stream.
#[derive(Clone, Copy, Debug)]
pub struct RequestStatsUpdate<'a> {
    pub request_id: &'a str,
    pub model: &'a str,
    pub tokens_processed: Option<u64>,
    pub tokens_generated: Option<u64>,
    pub finished: bool,
}

/// Latest reliable KV block observation for one local DP rank.
#[derive(Clone, Copy, Debug, PartialEq, Eq, Structural)]
pub struct KvCacheSnapshot {
    pub dp_rank: u32,
    pub used_blocks: u64,
    pub total_blocks: u64,
}

/// The worker-local state of the KV cache in tokens.
#[derive(Debug, PartialEq, Eq)]
pub struct KvCacheStats {
    pub model: String,
    pub kv_cache_capacity_tokens: u64,
    pub kv_cache_used_tokens: u64,
    pub kv_cache_free_tokens: u64,
}

impl Clone for KvCacheStats {
    fn clone(&self) -> (r: Self)
        ensures
            r.model@ == self.model@,
            r.kv_cache_capacity_tokens == self.kv_cache_capacity_tokens,
            r.kv_cache_used_tokens == self.kv_cache_used_tokens,
            r.kv_cache_free_tokens == self.kv_cache_free_tokens,
    {
        KvCacheStats {
            model: self.model.clone(),
            kv_cache_capacity_tokens: self.kv_cache_capacity_tokens,
            kv_cache_used_tokens: self.kv_cache_used_tokens,
            kv_cache_free_tokens: self.kv_cache_free_tokens,
        }
    }
}

#[derive(Clone, Copy, Debug, PartialEq, Eq, Structural)]
pub enum RequestStatsPublishError {
    EmptyRequestId,
    EmptyModel,
    MissingCounters,
    Serialize,
}

#[derive(Debug, PartialEq, Eq)]
pub enum KvCacheUpdateError {
    EmptyModel,
    ZeroExpectedDpRanks,
    ZeroBlockSize,
    ZeroTotalBlocks,
    UsedBlocksExceedTotal { used_blocks: u64, total_blocks: u64 },
    ConflictingConfiguration {
        configured_model: String,
        configured_dp_ranks: u32,
        configured_block_size: u32,
    },
    NotConfigured,
    UnexpectedDpRank { dp_rank: u32, expected: u32 },
}

#[derive(Debug, PartialEq, Eq)]
pub enum KvCacheStatsUnavailable {
    NoSnapshots,
    IncompleteDpRanks { model: String, observed: usize, expected: u32 },
    TokenCountOverflow { model: String },
}

impl KvCacheStatsUnavailable {
    pub fn response_code(&self) -> (r: &'static str)
        ensures
            r@ == if self is TokenCountOverflow {
                "kv_cache_stats_unavailable"@
            } else {
                "kv_cache_stats_not_ready"@
            },
    {
        match self {
            KvCacheStatsUnavailable::NoSnapshots => "kv_cache_stats_not_ready",
            KvCacheStatsUnavailable::IncompleteDpRanks { .. } => "kv_cache_stats_not_ready",
            KvCacheStatsUnavailable::TokenCountOverflow { .. } => "kv_cache_stats_unavailable",
        }
    }
}

/// How a byte of text is written in a JSON string: quotes, backslashes and
/// control characters are escaped.
pub open spec fn escaped(byte: u8) -> Seq<u8> {
    if byte == '"' as u8 || byte == '\\' as u8 {
        seq!['\\' as u8, byte]
    } else if byte == 0x08 {
        seq!['\\' as u8, 'b' as u8]
    } else if byte == 0x09 {
        seq!['\\' as u8, 't' as u8]
    } else if byte == 0x0a {
        seq!['\\' as u8, 'n' as u8]
    } else if byte == 0x0c {
        seq!['\\' as u8, 'f' as u8]
    } else if byte == 0x0d {
        seq!['\\' as u8, 'r' as u8]
    } else if byte < 0x20 {
        let high = fingerprint::hex_char(byte / 16) as u8;
        let low = fingerprint::hex_char(byte % 16) as u8;
        seq!['\\' as u8, 'u' as u8, '0' as u8, '0' as u8, high, low]
    } else {
        seq![byte]
    }
}

/// `text` as a JSON string.
pub open spec fn json_string(text: Seq<char>) -> Seq<u8> {
    seq!['"' as u8] + vstd::utf8::encode_utf8(text).map_values(
        |byte: u8| escaped(byte),
    ).flatten() + seq!['"' as u8]
}

/// `serde_json::to_vec` on a string: the string in quotes, each byte escaped
/// where JSON asks for it. Writing text to memory does not fail.
#[verifier::external_body]
fn to_json_string(text: &str) -> (r: Option<Vec<u8>>)
    ensures
        r is Some,
        r->0@ == json_string(text@),
{
    serde_json::to_vec(text).ok()
}

/// The bytes of a literal.
pub open spec fn ascii(text: Seq<char>) -> Seq<u8> {
    vstd::utf8::encode_utf8(text)
}

/// One counter of an event, if it is there.
pub open spec fn counter_field(name: Seq<char>, value: Option<u64>) -> Seq<u8> {
    match value {
        Some(value) => ascii(name) + ascii(text::decimal_digits(value as nat)),
        None => Seq::empty(),
    }
}

/// The line of one event. The request id and the model are JSON strings.
pub open spec fn event_bytes(
    request_id: Seq<u8>,
    model: Seq<u8>,
    tokens_processed: Option<u64>,
    tokens_generated: Option<u64>,
    finished: bool,
) -> Seq<u8> {
    ascii("{\"v\":1,\"type\":\"stats\",\"request_id\":"@) + request_id + ascii(",\"model\":"@) + model
        + counter_field(",\"tokens_processed\":"@, tokens_processed) + counter_field(
        ",\"tokens_generated\":"@,
        tokens_generated,
    ) + ascii(
        if finished {
            ",\"finished\":true}\n"@
        } else {
            ",\"finished\":false}\n"@
        },
    )
}

fn push_counter(out: &mut Vec<u8>, name: &str, value: Option<u64>)
    ensures
        final(out)@ == old(out)@ + counter_field(name@, value),
{
    match value {
        Some(value) => {
            text::push_text(out, name);
            let digits = text::decimal(value);
            text::push_text(out, digits.as_str());
        },
        None => {},
    }
    assert(out@ =~= old(out)@ + counter_field(name@, value));
}

fn push_bytes(out: &mut Vec<u8>, bytes: &[u8])
    ensures
        final(out)@ == old(out)@ + bytes@,
{
    let mut i: usize = 0;
    while i < bytes.len()
        invariant
            i <= bytes@.len(),
            out@ == old(out)@ + bytes@.take(i as int),
        decreases bytes@.len() - i,
    {
        out.push(bytes[i]);
        assert(out@ =~= old(out)@ + bytes@.take(i + 1));
        i += 1;
    }
    assert(bytes@.take(bytes@.len() as int) =~= bytes@);
}

/// Writes the line of one event. The request id and the model are JSON strings.
pub fn event_line(
    request_id: &[u8],
    model: &[u8],
    tokens_processed: Option<u64>,
    tokens_generated: Option<u64>,
    finished: bool,
) -> (r: Vec<u8>)
    ensures
        r@ == event_bytes(request_id@, model@, tokens_processed, tokens_generated, finished),
{
    let mut line: Vec<u8> = Vec::new();
    text::push_text(&mut line, "{\"v\":1,\"type\":\"stats\",\"request_id\":");
    push_bytes(&mut line, request_id);
    text::push_text(&mut line, ",\"model\":");
    push_bytes(&mut line, model);
    push_counter(&mut line, ",\"tokens_processed\":", tokens_processed);
    push_counter(&mut line, ",\"tokens_generated\":", tokens_generated);
    if finished {
        text::push_text(&mut line, ",\"finished\":true}\n");
    } else {
        text::push_text(&mut line, ",\"finished\":false}\n");
    }
    assert(line@ =~= event_bytes(
        request_id@,
        model@,
        tokens_processed,
        tokens_generated,
        finished,
    ));
    line
}

/// The line of an event about `request_id` and `model`.
pub open spec fn stats_line(
    request_id: Seq<char>,
    model: Seq<char>,
    tokens_processed: Option<u64>,
    tokens_generated: Option<u64>,
    finished: bool,
) -> Seq<u8> {
    event_bytes(
        json_string(request_id),
        json_string(model),
        tokens_processed,
        tokens_generated,
        finished,
    )
}

/// Writes the line of one event.
pub fn write_stats_line(
    request_id: &str,
    model: &str,
    tokens_processed: Option<u64>,
    tokens_generated: Option<u64>,
    finished: bool,
) -> (r: Option<Vec<u8>>)
    ensures
        r is Some,
        r->0@ == stats_line(
            request_id@,
            model@,
            tokens_processed,
            tokens_generated,
            finished,
        ),
{
    let request_id = to_json_string(request_id);
    let model = to_json_string(model);
    match (request_id, model) {
        (Some(request_id), Some(model)) => Some(
            event_line(
                request_id.as_slice(),
                model.as_slice(),
                tokens_processed,
                tokens_generated,
                finished,
            ),
        ),
        _ => None,
    }
}

/// Whether no byte is a control character.
pub open spec fn is_printable(bytes: Seq<u8>) -> bool {
    forall|i: int| 0 <= i < bytes.len() ==> #[trigger] bytes[i] >= 0x20
}

proof fn lemma_printable_ascii(text: Seq<char>)
    requires
        forall|i: int| 0 <= i < text.len() ==> ' ' <= #[trigger] text[i] <= '~',
    ensures
        is_printable(ascii(text)),
{
    vstd::utf8::is_ascii_chars_encode_utf8(text);
    assert forall|i: int| 0 <= i < ascii(text).len() implies #[trigger] ascii(text)[i] >= 0x20 by {
        assert(ascii(text)[i] == text[i] as u8);
    }
}

proof fn lemma_printable_counter(name: Seq<char>, value: Option<u64>)
    requires
        forall|i: int| 0 <= i < name.len() ==> ' ' <= #[trigger] name[i] <= '~',
    ensures
        is_printable(counter_field(name, value)),
{
    lemma_printable_ascii(name);
    if let Some(value) = value {
        text::lemma_decimal_value(value as nat);
        lemma_printable_ascii(text::decimal_digits(value as nat));
    }
}

proof fn lemma_printable_escapes(bytes: Seq<u8>)
    ensures
        is_printable(bytes.map_values(|byte: u8| escaped(byte)).flatten()),
    decreases bytes.len(),
{
    let parts = bytes.map_values(|byte: u8| escaped(byte));
    if bytes.len() > 0 {
        lemma_printable_escapes(bytes.drop_first());
        assert(parts.drop_first() =~= bytes.drop_first().map_values(|byte: u8| escaped(byte)));
        assert(is_printable(escaped(bytes[0])));
        assert(parts.flatten() == escaped(bytes[0]) + parts.drop_first().flatten());
    }
}

/// Every event takes exactly one line: a line break ends it, and neither that
/// nor any other control character stands before, whatever the request id and
/// the model hold.
pub proof fn event_is_one_line(
    request_id: Seq<char>,
    model: Seq<char>,
    tokens_processed: Option<u64>,
    tokens_generated: Option<u64>,
    finished: bool,
)
    ensures
        ({
            let line = stats_line(request_id, model, tokens_processed, tokens_generated, finished);
            line.len() > 0 && line.last() == 0x0a && is_printable(line.drop_last())
        }),
{
    reveal_strlit("{\"v\":1,\"type\":\"stats\",\"request_id\":");
    reveal_strlit(",\"model\":");
    reveal_strlit(",\"tokens_processed\":");
    reveal_strlit(",\"tokens_generated\":");
    reveal_strlit(",\"finished\":true}\n");
    reveal_strlit(",\"finished\":false}\n");
    lemma_printable_ascii("{\"v\":1,\"type\":\"stats\",\"request_id\":"@);
    lemma_printable_ascii(",\"model\":"@);
    lemma_printable_counter(",\"tokens_processed\":"@, tokens_processed);
    lemma_printable_counter(",\"tokens_generated\":"@, tokens_generated);
    lemma_printable_escapes(vstd::utf8::encode_utf8(request_id));
    lemma_printable_escapes(vstd::utf8::encode_utf8(model));
    let end = if finished {
        ",\"finished\":true}\n"@
    } else {
        ",\"finished\":false}\n"@
    };
    vstd::utf8::is_ascii_chars_encode_utf8(end);
    assert(forall|i: int| 0 <= i < ascii(end).len() ==> #[trigger] ascii(end)[i] == end[i] as u8);
}

/// The block counts of one rank.
#[derive(Clone, Copy, Debug, PartialEq, Eq, Structural)]
pub struct RankKvSnapshot {
    pub used_blocks: u64,
    pub total_blocks: u64,
}

struct ModelKvState {
    model: String,
    block_size_tokens: u32,
    ranks: Vec<Option<RankKvSnapshot>>,
}

/// The KV cache of one model as far as it was observed.
#[verifier::ext_equal]
pub struct KvView {
    pub model: Seq<char>,
    pub block_size_tokens: u32,
    pub ranks: Seq<Option<RankKvSnapshot>>,
}

/// What a worker publishes.
pub struct PylonStats {
    request_stats_producer_available: bool,
    kv_state: Option<ModelKvState>,
}

#[verifier::ext_equal]
pub struct PylonStatsView {
    pub producer_available: bool,
    pub kv_state: Option<KvView>,
}

impl View for PylonStats {
    type V = PylonStatsView;

    closed spec fn view(&self) -> PylonStatsView {
        PylonStatsView {
            producer_available: self.request_stats_producer_available,
            kv_state: match self.kv_state {
                Some(state) => Some(
                    KvView {
                        model: state.model@,
                        block_size_tokens: state.block_size_tokens,
                        ranks: state.ranks@,
                    },
                ),
                None => None,
            },
        }
    }
}

/// The total blocks of the ranks that were observed.
pub open spec fn total_blocks(ranks: Seq<Option<RankKvSnapshot>>) -> nat
    decreases ranks.len(),
{
    if ranks.len() == 0 {
        0
    } else {
        total_blocks(ranks.drop_last()) + match ranks.last() {
            Some(rank) => rank.total_blocks as nat,
            None => 0,
        }
    }
}

/// The used blocks of the ranks that were observed.
pub open spec fn used_blocks(ranks: Seq<Option<RankKvSnapshot>>) -> nat
    decreases ranks.len(),
{
    if ranks.len() == 0 {
        0
    } else {
        used_blocks(ranks.drop_last()) + match ranks.last() {
            Some(rank) => rank.used_blocks as nat,
            None => 0,
        }
    }
}

/// How many ranks were observed.
pub open spec fn observed_ranks(ranks: Seq<Option<RankKvSnapshot>>) -> nat
    decreases ranks.len(),
{
    if ranks.len() == 0 {
        0
    } else {
        observed_ranks(ranks.drop_last()) + if ranks.last() is Some {
            1nat
        } else {
            0
        }
    }
}

impl KvView {
    /// There is at least one rank, blocks hold tokens, and every rank that was
    /// observed has blocks and uses no more than it has.
    pub open spec fn wf(self) -> bool {
        &&& 0 < self.ranks.len() <= u32::MAX
        &&& self.block_size_tokens > 0
        &&& forall|i: int|
            0 <= i < self.ranks.len() && (#[trigger] self.ranks[i]) is Some
                ==> self.ranks[i]->0.total_blocks > 0 && self.ranks[i]->0.used_blocks
                <= self.ranks[i]->0.total_blocks
    }

    /// A cache none of whose ranks was observed.
    pub open spec fn configured(model: Seq<char>, ranks: u32, block_size_tokens: u32) -> Self {
        KvView { model, block_size_tokens, ranks: Seq::new(ranks as nat, |i: int| None) }
    }

    /// The capacity in tokens.
    pub open spec fn capacity(self) -> nat {
        total_blocks(self.ranks) * self.block_size_tokens as nat
    }

    /// The tokens that the used blocks have room for.
    pub open spec fn used(self) -> nat {
        used_blocks(self.ranks) * self.block_size_tokens as nat
    }
}

impl PylonStatsView {
    pub open spec fn wf(self) -> bool {
        self.kv_state is Some ==> self.kv_state->0.wf()
    }
}

/// Why an update is refused, if it is.
pub open spec fn update_error(
    request_id: Seq<char>,
    model: Seq<char>,
    tokens_processed: Option<u64>,
    tokens_generated: Option<u64>,
    finished: bool,
) -> Option<RequestStatsPublishError> {
    if text::trimmed(request_id).len() == 0 {
        Some(RequestStatsPublishError::EmptyRequestId)
    } else if text::trimmed(model).len() == 0 {
        Some(RequestStatsPublishError::EmptyModel)
    } else if tokens_processed is None && tokens_generated is None && !finished {
        Some(RequestStatsPublishError::MissingCounters)
    } else {
        None
    }
}

/// Whether `r` is what publishing an update to so many subscribers gives.
pub open spec fn publish_result(
    request_id: Seq<char>,
    model: Seq<char>,
    tokens_processed: Option<u64>,
    tokens_generated: Option<u64>,
    finished: bool,
    subscribers: usize,
    r: Result<Option<Vec<u8>>, RequestStatsPublishError>,
) -> bool {
    match update_error(request_id, model, tokens_processed, tokens_generated, finished) {
        Some(error) => r is Err && r->Err_0 == error,
        None => if subscribers == 0 {
            r is Ok && r->Ok_0 is None
        } else {
            r is Ok && r->Ok_0 is Some && r->Ok_0->0@ == stats_line(
                text::trimmed(request_id),
                text::trimmed(model),
                tokens_processed,
                tokens_generated,
                finished,
            )
        },
    }
}

/// Whether `after` and `r` are what configuring the KV cache leads to. A
/// configuration is never changed; repeating it is fine.
pub open spec fn configure_result(
    before: PylonStatsView,
    model: Seq<char>,
    ranks: u32,
    block_size_tokens: u32,
    after: PylonStatsView,
    r: Result<(), KvCacheUpdateError>,
) -> bool {
    &&& r is Err ==> after == before
    &&& if model.len() == 0 {
        r is Err && r->Err_0 is EmptyModel
    } else if ranks == 0 {
        r is Err && r->Err_0 is ZeroExpectedDpRanks
    } else if block_size_tokens == 0 {
        r is Err && r->Err_0 is ZeroBlockSize
    } else {
        match before.kv_state {
            None => r is Ok && after == (PylonStatsView {
                kv_state: Some(KvView::configured(model, ranks, block_size_tokens)),
                ..before
            }),
            Some(kv) => if kv.model == model && kv.ranks.len() == ranks && kv.block_size_tokens
                == block_size_tokens {
                r is Ok && after == before
            } else {
                r is Err && (r->Err_0 matches KvCacheUpdateError::ConflictingConfiguration {
                    configured_model,
                    configured_dp_ranks,
                    configured_block_size,
                } && configured_model@ == kv.model && configured_dp_ranks == kv.ranks.len()
                    && configured_block_size == kv.block_size_tokens)
            },
        }
    }
}

/// Whether `after` and `r` are what an observation leads to.
pub open spec fn snapshot_result(
    before: PylonStatsView,
    snapshot: KvCacheSnapshot,
    after: PylonStatsView,
    r: Result<(), KvCacheUpdateError>,
) -> bool {
    &&& r is Err ==> after == before
    &&& if snapshot.total_blocks == 0 {
        r is Err && r->Err_0 is ZeroTotalBlocks
    } else if snapshot.used_blocks > snapshot.total_blocks {
        r is Err && r->Err_0 == (KvCacheUpdateError::UsedBlocksExceedTotal {
            used_blocks: snapshot.used_blocks,
            total_blocks: snapshot.total_blocks,
        })
    } else {
        match before.kv_state {
            None => r is Err && r->Err_0 is NotConfigured,
            Some(kv) => if snapshot.dp_rank >= kv.ranks.len() {
                r is Err && r->Err_0 == (KvCacheUpdateError::UnexpectedDpRank {
                    dp_rank: snapshot.dp_rank,
                    expected: kv.ranks.len() as u32,
                })
            } else {
                let rank = RankKvSnapshot {
                    used_blocks: snapshot.used_blocks,
                    total_blocks: snapshot.total_blocks,
                };
                r is Ok && after == (PylonStatsView {
                    kv_state: Some(
                        (KvView {
                            ranks: kv.ranks.update(snapshot.dp_rank as int, Some(rank)),
                            ..kv
                        }),
                    ),
                    ..before
                })
            },
        }
    }
}

/// Whether `r` says that the KV cache stats cannot be told, and why.
pub open spec fn stats_unavailable(state: Option<KvView>, error: KvCacheStatsUnavailable) -> bool {
    match state {
        None => error is NoSnapshots,
        Some(kv) => {
            let observed = observed_ranks(kv.ranks);
            if observed == 0 {
                error is NoSnapshots
            } else if observed != kv.ranks.len() {
                error matches KvCacheStatsUnavailable::IncompleteDpRanks {
                    model,
                    observed: seen,
                    expected,
                } && model@ == kv.model && seen == observed && expected == kv.ranks.len()
            } else {
                error matches KvCacheStatsUnavailable::TokenCountOverflow { model } && model@
                    == kv.model && kv.capacity() > u64::MAX
            }
        },
    }
}

/// Whether `stats` tells the state of a KV cache whose ranks were all observed.
pub open spec fn stats_of(kv: KvView, stats: KvCacheStats) -> bool {
    &&& observed_ranks(kv.ranks) == kv.ranks.len()
    &&& stats.model@ == kv.model
    &&& stats.kv_cache_capacity_tokens == kv.capacity()
    &&& stats.kv_cache_used_tokens == kv.used()
    &&& stats.kv_cache_free_tokens == kv.capacity() - kv.used()
}

impl Default for PylonStats {
    fn default() -> (r: Self)
        ensures
            r@.wf(),
            r@ == (PylonStatsView { producer_available: false, kv_state: None }),
    {
        PylonStats { request_stats_producer_available: false, kv_state: None }
    }
}

impl PylonStats {
    /// Marks request stats available before the worker enters discovery.
    pub fn mark_request_stats_producer_available(&mut self)
        ensures
            final(self)@ == (PylonStatsView { producer_available: true, ..old(self)@ }),
    {
        self.request_stats_producer_available = true;
    }

    pub fn request_stats_producer_available(&self) -> (r: bool)
        ensures
            r == self@.producer_available,
    {
        self.request_stats_producer_available
    }

    /// Validates and writes one cumulative request update. Returns the line
    /// for the subscribers. Without subscribers there is none, but the update
    /// is still validated.
    pub fn publish_request_stats(&self, update: RequestStatsUpdate<'_>, subscribers: usize) -> (r:
        Result<Option<Vec<u8>>, RequestStatsPublishError>)
        ensures
            publish_result(
                update.request_id@,
                update.model@,
                update.tokens_processed,
                update.tokens_generated,
                update.finished,
                subscribers,
                r,
            ),
    {
        let request_id = text::trim(update.request_id);
        if text::is_blank(request_id.as_str()) {
            return Err(RequestStatsPublishError::EmptyRequestId);
        }
        let model = text::trim(update.model);
        if text::is_blank(model.as_str()) {
            return Err(RequestStatsPublishError::EmptyModel);
        }
        if update.tokens_processed.is_none() && update.tokens_generated.is_none()
            && !update.finished {
            return Err(RequestStatsPublishError::MissingCounters);
        }
        if subscribers == 0 {
            return Ok(None);
        }
        match write_stats_line(
            request_id.as_str(),
            model.as_str(),
            update.tokens_processed,
            update.tokens_generated,
            update.finished,
        ) {
            Some(line) => Ok(Some(line)),
            None => Err(RequestStatsPublishError::Serialize),
        }
    }

    /// Configures the immutable KV-cache geometry of this worker.
    pub fn configure_kv_cache(
        &mut self,
        model: &str,
        expected_dp_ranks: u32,
        block_size_tokens: u32,
    ) -> (r: Result<(), KvCacheUpdateError>)
        requires
            old(self)@.wf(),
        ensures
            final(self)@.wf(),
            configure_result(
                old(self)@,
                text::trimmed(model@),
                expected_dp_ranks,
                block_size_tokens,
                final(self)@,
                r,
            ),
    {
        let model = text::trim(model);
        if text::is_blank(model.as_str()) {
            return Err(KvCacheUpdateError::EmptyModel);
        }
        if expected_dp_ranks == 0 {
            return Err(KvCacheUpdateError::ZeroExpectedDpRanks);
        }
        if block_size_tokens == 0 {
            return Err(KvCacheUpdateError::ZeroBlockSize);
        }
        if let Some(configured) = &self.kv_state {
            if configured.model == model && configured.ranks.len() as u64
                == expected_dp_ranks as u64 && configured.block_size_tokens == block_size_tokens {
                return Ok(());
            }
            return Err(
                KvCacheUpdateError::ConflictingConfiguration {
                    configured_model: configured.model.clone(),
                    configured_dp_ranks: configured.ranks.len() as u32,
                    configured_block_size: configured.block_size_tokens,
                },
            );
        }
        let mut ranks: Vec<Option<RankKvSnapshot>> = Vec::new();
        let mut i: u32 = 0;
        while i < expected_dp_ranks
            invariant
                i <= expected_dp_ranks,
                ranks@ == Seq::new(i as nat, |j: int| None::<RankKvSnapshot>),
            decreases expected_dp_ranks - i,
        {
            ranks.push(None);
            i += 1;
            assert(ranks@ =~= Seq::new(i as nat, |j: int| None::<RankKvSnapshot>));
        }
        self.kv_state = Some(ModelKvState { model, block_size_tokens, ranks });
        Ok(())
    }

    /// Replaces the latest reliable block observation of one local DP rank.
    pub fn update_kv_snapshot(&mut self, snapshot: KvCacheSnapshot) -> (r: Result<
        (),
        KvCacheUpdateError,
    >)
        requires
            old(self)@.wf(),
        ensures
            final(self)@.wf(),
            snapshot_result(old(self)@, snapshot, final(self)@, r),
            r is Ok ==> {
                &&& final(self)@.producer_available == old(self)@.producer_available
                &&& old(self)@.kv_state is Some && final(self)@.kv_state is Some
                &&& snapshot.dp_rank < final(self)@.kv_state->0.ranks.len()
                &&& final(self)@.kv_state->0.ranks[snapshot.dp_rank as int] == Some(
                    RankKvSnapshot {
                        used_blocks: snapshot.used_blocks,
                        total_blocks: snapshot.total_blocks,
                    },
                )
            },
    {
        if snapshot.total_blocks == 0 {
            return Err(KvCacheUpdateError::ZeroTotalBlocks);
        }
        if snapshot.used_blocks > snapshot.total_blocks {
            return Err(
                KvCacheUpdateError::UsedBlocksExceedTotal {
                    used_blocks: snapshot.used_blocks,
                    total_blocks: snapshot.total_blocks,
                },
            );
        }
        let rank = RankKvSnapshot {
            used_blocks: snapshot.used_blocks,
            total_blocks: snapshot.total_blocks,
        };
        let mut held: Option<ModelKvState> = None;
        std::mem::swap(&mut held, &mut self.kv_state);
        match held {
            None => Err(KvCacheUpdateError::NotConfigured),
            Some(state) => {
                let mut state = state;
                let expected: u32 = state.ranks.len() as u32;
                if snapshot.dp_rank >= expected {
                    self.kv_state = Some(state);
                    return Err(
                        KvCacheUpdateError::UnexpectedDpRank {
                            dp_rank: snapshot.dp_rank,
                            expected,
                        },
                    );
                }
                state.ranks.set(snapshot.dp_rank as usize, Some(rank));
                self.kv_state = Some(state);
                Ok(())
            },
        }
    }

    /// Derives the token counts from the latest complete state.
    pub fn kv_cache_stats(&self) -> (r: Result<KvCacheStats, KvCacheStatsUnavailable>)
        requires
            self@.wf(),
        ensures
            match r {
                Ok(stats) => self@.kv_state is Some && stats_of(self@.kv_state->0, stats),
                Err(error) => stats_unavailable(self@.kv_state, error),
            },
    {
        let state = match &self.kv_state {
            Some(state) => state,
            None => {
                return Err(KvCacheStatsUnavailable::NoSnapshots);
            },
        };
        let ghost kv = self@.kv_state->0;
        let mut observed: usize = 0;
        let mut total: Option<u64> = Some(0);
        let mut used: u64 = 0;
        let mut i: usize = 0;
        while i < state.ranks.len()
            invariant
                i <= state.ranks@.len(),
                kv.ranks == state.ranks@,
                kv.wf(),
                observed == observed_ranks(kv.ranks.take(i as int)),
                observed <= i,
                match total {
                    Some(blocks) => blocks == total_blocks(kv.ranks.take(i as int)) && used
                        == used_blocks(kv.ranks.take(i as int)) && used <= blocks,
                    None => total_blocks(kv.ranks.take(i as int)) > u64::MAX,
                },
            decreases state.ranks@.len() - i,
        {
            proof {
                assert(kv.ranks.take(i + 1).drop_last() =~= kv.ranks.take(i as int));
                assert(kv.ranks.take(i + 1).last() == kv.ranks[i as int]);
            }
            match state.ranks[i] {
                Some(rank) => {
                    observed += 1;
                    total = match total {
                        Some(blocks) => match blocks.checked_add(rank.total_blocks) {
                            Some(sum) => {
                                used = used + rank.used_blocks;
                                Some(sum)
                            },
                            None => None,
                        },
                        None => None,
                    };
                },
                None => {},
            }
            i += 1;
        }
        assert(kv.ranks.take(kv.ranks.len() as int) =~= kv.ranks);
        if observed == 0 {
            return Err(KvCacheStatsUnavailable::NoSnapshots);
        }
        if observed != state.ranks.len() {
            return Err(
                KvCacheStatsUnavailable::IncompleteDpRanks {
                    model: state.model.clone(),
                    observed,
                    expected: state.ranks.len() as u32,
                },
            );
        }
        let block_size: u64 = state.block_size_tokens as u64;
        let capacity: Option<u64> = match total {
            Some(blocks) => blocks.checked_mul(block_size),
            None => None,
        };
        match capacity {
            Some(capacity_tokens) => {
                proof {
                    let blocks = total->0 as int;
                    assert(used as int * block_size as int <= blocks * block_size as int)
                        by (nonlinear_arith)
                        requires
                            used <= blocks,
                            block_size >= 0,
                    ;
                }
                let used_tokens: u64 = used * block_size;
                Ok(
                    KvCacheStats {
                        model: state.model.clone(),
                        kv_cache_capacity_tokens: capacity_tokens,
                        kv_cache_used_tokens: used_tokens,
                        kv_cache_free_tokens: capacity_tokens - used_tokens,
                    },
                )
            },
            None => {
                proof {
                    let blocks = total_blocks(kv.ranks);
                    assert(blocks <= blocks * block_size as nat) by (nonlinear_arith)
                        requires
                            block_size >= 1,
                    ;
                }
                Err(KvCacheStatsUnavailable::TokenCountOverflow { model: state.model.clone() })
            },
        }
    }
}

proof fn lemma_used_within_total(ranks: Seq<Option<RankKvSnapshot>>)
    requires
        forall|i: int|
            0 <= i < ranks.len() && (#[trigger] ranks[i]) is Some ==> ranks[i]->0.used_blocks
                <= ranks[i]->0.total_blocks,
    ensures
        used_blocks(ranks) <= total_blocks(ranks),
    decreases ranks.len(),
{
    if ranks.len() > 0 {
        assert forall|i: int|
            0 <= i < ranks.drop_last().len() && (#[trigger] ranks.drop_last()[i]) is Some implies ranks.drop_last()[i]->0.used_blocks
            <= ranks.drop_last()[i]->0.total_blocks by {
            assert(ranks.drop_last()[i] == ranks[i]);
        }
        lemma_used_within_total(ranks.drop_last());
        assert(ranks.last() == ranks[ranks.len() - 1]);
    }
}

/// The used and the free tokens together are the capacity.
pub proof fn tokens_add_up(kv: KvView, stats: KvCacheStats)
    requires
        kv.wf(),
        stats_of(kv, stats),
    ensures
        kv.used() <= kv.capacity(),
        stats.kv_cache_used_tokens + stats.kv_cache_free_tokens == stats.kv_cache_capacity_tokens,
{
    lemma_used_within_total(kv.ranks);
    let used = used_blocks(kv.ranks);
    let total = total_blocks(kv.ranks);
    let size = kv.block_size_tokens as nat;
    assert(used * size <= total * size) by (nonlinear_arith)
        requires
            used <= total,
    ;
}

/// Right after configuration nothing can be told of the KV cache.
pub proof fn configured_cache_has_no_observations(model: Seq<char>, ranks: u32, block_size: u32)
    ensures
        observed_ranks(KvView::configured(model, ranks, block_size).ranks) == 0,
    decreases ranks,
{
    let seq = KvView::configured(model, ranks, block_size).ranks;
    if ranks > 0 {
        configured_cache_has_no_observations(model, (ranks - 1) as u32, block_size);
        assert(seq.drop_last() =~= KvView::configured(model, (ranks - 1) as u32, block_size).ranks);
    }
}

/// What a Python caller sees of an error.
#[derive(Clone, Copy, Debug, PartialEq, Eq, Structural)]
pub enum PublisherErrorKind {
    /// The caller passed something wrong.
    Value,
    /// Something else went wrong.
    Runtime,
}

pub fn request_stats_error(error: &RequestStatsPublishError) -> (r: PublisherErrorKind)
    ensures
        r == if *error == RequestStatsPublishError::Serialize {
            PublisherErrorKind::Runtime
        } else {
            PublisherErrorKind::Value
        },
{
    match error {
        RequestStatsPublishError::Serialize => PublisherErrorKind::Runtime,
        _ => PublisherErrorKind::Value,
    }
}

/// Publishes for one model, to stats that it shares with those who read them.
pub struct PylonStatsPublisher {
    model: String,
}

impl PylonStatsPublisher {
    pub closed spec fn model(&self) -> Seq<char> {
        self.model@
    }

    /// Configures the KV cache and makes request stats available.
    pub fn attach(
        inner: &mut PylonStats,
        model: &str,
        expected_dp_ranks: u32,
        block_size_tokens: u32,
    ) -> (r: Result<Self, KvCacheUpdateError>)
        requires
            old(inner)@.wf(),
        ensures
            final(inner)@.wf(),
            ({
                let name = text::trimmed(model@);
                match r {
                    Ok(publisher) => {
                        &&& publisher.model() == name
                        &&& final(inner)@.producer_available
                        &&& configure_result(
                            old(inner)@,
                            name,
                            expected_dp_ranks,
                            block_size_tokens,
                            (PylonStatsView {
                                producer_available: old(inner)@.producer_available,
                                ..final(inner)@
                            }),
                            Ok(()),
                        )
                    },
                    Err(error) => configure_result(
                        old(inner)@,
                        name,
                        expected_dp_ranks,
                        block_size_tokens,
                        final(inner)@,
                        Err(error),
                    ),
                }
            }),
    {
        match inner.configure_kv_cache(model, expected_dp_ranks, block_size_tokens) {
            Ok(()) => {},
            Err(error) => {
                return Err(error);
            },
        }
        inner.mark_request_stats_producer_available();
        Ok(PylonStatsPublisher { model: text::trim(model) })
    }

    /// Publishes one cumulative request-counter event.
    pub fn publish_stats_event(
        &self,
        inner: &PylonStats,
        request_id: &str,
        tokens_processed: Option<u64>,
        tokens_generated: Option<u64>,
        finished: bool,
        subscribers: usize,
    ) -> (r: Result<Option<Vec<u8>>, RequestStatsPublishError>)
        ensures
            publish_result(
                request_id@,
                self.model(),
                tokens_processed,
                tokens_generated,
                finished,
                subscribers,
                r,
            ),
    {
        let update = RequestStatsUpdate {
            request_id,
            model: self.model.as_str(),
            tokens_processed,
            tokens_generated,
            finished,
        };
        inner.publish_request_stats(update, subscribers)
    }

    /// Replaces one rank's latest observed KV block state.
    pub fn update_kv_snapshot(
        &self,
        inner: &mut PylonStats,
        dp_rank: u32,
        used_blocks: u64,
        total_blocks: u64,
    ) -> (r: Result<(), KvCacheUpdateError>)
        requires
            old(inner)@.wf(),
        ensures
            final(inner)@.wf(),
            snapshot_result(
                old(inner)@,
                (KvCacheSnapshot { dp_rank, used_blocks, total_blocks }),
                final(inner)@,
                r,
            ),
    {
        inner.update_kv_snapshot(KvCacheSnapshot { dp_rank, used_blocks, total_blocks })
    }
}

/// An observation that is accepted is what its rank holds from then on, whatever
/// the rank held before. Every other rank, the geometry of the cache and the
/// availability of request stats stay as they are. One that is refused changes
/// nothing.
pub proof fn latest_observation_counts(
    before: PylonStatsView,
    snapshot: KvCacheSnapshot,
    after: PylonStatsView,
    r: Result<(), KvCacheUpdateError>,
)
    requires
        before.wf(),
        snapshot_result(before, snapshot, after, r),
    ensures
        r is Err ==> after == before,
        r is Ok <==> snapshot.total_blocks > 0 && snapshot.used_blocks <= snapshot.total_blocks
            && before.kv_state is Some && snapshot.dp_rank < before.kv_state->0.ranks.len(),
        r is Ok ==> {
            let old_ranks = before.kv_state->0.ranks;
            let ranks = after.kv_state->0.ranks;
            &&& after.kv_state is Some
            &&& after.producer_available == before.producer_available
            &&& after.kv_state->0.model == before.kv_state->0.model
            &&& after.kv_state->0.block_size_tokens == before.kv_state->0.block_size_tokens
            &&& ranks.len() == old_ranks.len()
            &&& ranks[snapshot.dp_rank as int] is Some
            &&& ranks[snapshot.dp_rank as int]->0.used_blocks == snapshot.used_blocks
            &&& ranks[snapshot.dp_rank as int]->0.total_blocks == snapshot.total_blocks
            &&& forall|i: int|
                0 <= i < ranks.len() && i != snapshot.dp_rank ==> #[trigger] ranks[i]
                    == old_ranks[i]
        },
{
}

/// Whether each of `snapshots` was accepted, leading from one of `states` to the
/// next.
pub open spec fn all_accepted(
    states: Seq<PylonStatsView>,
    snapshots: Seq<KvCacheSnapshot>,
) -> bool {
    &&& states.len() == snapshots.len() + 1
    &&& states[0].wf()
    &&& forall|i: int|
        0 <= i < snapshots.len() ==> snapshot_result(
            states[i],
            #[trigger] snapshots[i],
            states[i + 1],
            Ok(()),
        )
}

/// After any series of accepted observations each rank holds its last one, and
/// a rank that was not observed holds what it held at first.
pub proof fn ranks_hold_their_last_observation(
    states: Seq<PylonStatsView>,
    snapshots: Seq<KvCacheSnapshot>,
    rank: int,
)
    requires
        all_accepted(states, snapshots),
        states[0].kv_state is Some,
        0 <= rank < states[0].kv_state->0.ranks.len(),
    ensures
        ({
            let last = states.last();
            &&& last.kv_state is Some
            &&& last.wf()
            &&& last.kv_state->0.ranks.len() == states[0].kv_state->0.ranks.len()
            &&& last.kv_state->0.block_size_tokens == states[0].kv_state->0.block_size_tokens
            &&& forall|i: int|
                0 <= i < snapshots.len() && (#[trigger] snapshots[i]).dp_rank == rank && (forall|
                    j: int,
                |
                    i < j < snapshots.len() ==> (#[trigger] snapshots[j]).dp_rank != rank)
                    ==> last.kv_state->0.ranks[rank] == Some(
                    RankKvSnapshot {
                        used_blocks: snapshots[i].used_blocks,
                        total_blocks: snapshots[i].total_blocks,
                    },
                )
            &&& (forall|j: int|
                0 <= j < snapshots.len() ==> (#[trigger] snapshots[j]).dp_rank != rank)
                ==> last.kv_state->0.ranks[rank] == states[0].kv_state->0.ranks[rank]
        }),
    decreases snapshots.len(),
{
    if snapshots.len() > 0 {
        let n = snapshots.len() - 1;
        let front = snapshots.drop_last();
        let earlier = states.drop_last();
        assert forall|i: int| 0 <= i < front.len() implies snapshot_result(
            earlier[i],
            #[trigger] front[i],
            earlier[i + 1],
            Ok(()),
        ) by {
            assert(snapshot_result(states[i], snapshots[i], states[i + 1], Ok(())));
        }
        ranks_hold_their_last_observation(earlier, front, rank);
        assert(earlier.last() == states[n]);
        assert(states[n + 1] == states.last());
        assert(snapshot_result(states[n], snapshots[n], states[n + 1], Ok(())));
        latest_observation_counts(states[n], snapshots[n], states[n + 1], Ok(()));
        let last = states.last();
        assert forall|i: int|
            0 <= i < snapshots.len() && (#[trigger] snapshots[i]).dp_rank == rank && (forall|
                j: int,
            |
                i < j < snapshots.len() ==> (#[trigger] snapshots[j]).dp_rank != rank) implies last.kv_state->0.ranks[rank]
            == Some(
            RankKvSnapshot {
                used_blocks: snapshots[i].used_blocks,
                total_blocks: snapshots[i].total_blocks,
            },
        ) by {
            if i < n {
                assert(snapshots[n].dp_rank != rank);
                assert(front[i].dp_rank == rank);
                assert forall|j: int| i < j < front.len() implies (#[trigger] front[j]).dp_rank
                    != rank by {
                    assert(snapshots[j].dp_rank != rank);
                }
            }
        }
        if forall|j: int| 0 <= j < snapshots.len() ==> (#[trigger] snapshots[j]).dp_rank != rank {
            assert(snapshots[n].dp_rank != rank);
            assert forall|j: int| 0 <= j < front.len() implies (#[trigger] front[j]).dp_rank
                != rank by {
                assert(snapshots[j].dp_rank != rank);
            }
        }
    }
}

/// An observation is refused for the first thing that is wrong with it.
pub proof fn wrong_observations_are_refused(
    before: PylonStatsView,
    snapshot: KvCacheSnapshot,
    after: PylonStatsView,
    r: Result<(), KvCacheUpdateError>,
)
    requires
        before.wf(),
        snapshot_result(before, snapshot, after, r),
    ensures
        snapshot.total_blocks == 0 ==> r is Err && r->Err_0 is ZeroTotalBlocks,
        0 < snapshot.total_blocks < snapshot.used_blocks ==> (r matches Err(
            KvCacheUpdateError::UsedBlocksExceedTotal { used_blocks, total_blocks },
        ) && used_blocks == snapshot.used_blocks && total_blocks == snapshot.total_blocks),
        snapshot.total_blocks > 0 && snapshot.used_blocks <= snapshot.total_blocks
            && before.kv_state is None ==> r is Err && r->Err_0 is NotConfigured,
        snapshot.total_blocks > 0 && snapshot.used_blocks <= snapshot.total_blocks
            && before.kv_state is Some && snapshot.dp_rank >= before.kv_state->0.ranks.len() ==> (
        r matches Err(KvCacheUpdateError::UnexpectedDpRank { dp_rank, expected }) && dp_rank
            == snapshot.dp_rank && expected == before.kv_state->0.ranks.len()),
{
}

/// A cache is configured once: the first valid geometry stays, the same one may
/// be given again, and any other is refused. A fresh cache has so many ranks, none
/// of them observed.
pub proof fn first_configuration_stays(
    before: PylonStatsView,
    model: Seq<char>,
    ranks: u32,
    block_size_tokens: u32,
    after: PylonStatsView,
    r: Result<(), KvCacheUpdateError>,
)
    requires
        before.wf(),
        configure_result(before, model, ranks, block_size_tokens, after, r),
    ensures
        ({
            let valid = model.len() > 0 && ranks > 0 && block_size_tokens > 0;
            let same = before.kv_state is Some && before.kv_state->0.model == model
                && before.kv_state->0.ranks.len() == ranks && before.kv_state->0.block_size_tokens
                == block_size_tokens;
            &&& r is Ok <==> valid && (before.kv_state is None || same)
            &&& before.kv_state is Some ==> after == before
            &&& r is Err ==> after == before
            &&& r is Ok && before.kv_state is None ==> {
                let kv = after.kv_state->0;
                &&& after.kv_state is Some
                &&& after.producer_available == before.producer_available
                &&& kv.model == model
                &&& kv.block_size_tokens == block_size_tokens
                &&& kv.ranks.len() == ranks
                &&& forall|i: int| 0 <= i < ranks ==> (#[trigger] kv.ranks[i]) is None
            }
            &&& model.len() == 0 ==> r is Err && r->Err_0 is EmptyModel
            &&& model.len() > 0 && ranks == 0 ==> r is Err && r->Err_0 is ZeroExpectedDpRanks
            &&& model.len() > 0 && ranks > 0 && block_size_tokens == 0 ==> r is Err && r->Err_0
                is ZeroBlockSize
            &&& valid && before.kv_state is Some && !same ==> r is Err && (r->Err_0 matches
                KvCacheUpdateError::ConflictingConfiguration {
                configured_model,
                configured_dp_ranks,
                configured_block_size,
            } && configured_model@ == before.kv_state->0.model && configured_dp_ranks
                == before.kv_state->0.ranks.len() && configured_block_size
                == before.kv_state->0.block_size_tokens)
        }),
{
}

/// The blocks of some ranks and of some more are those of all of them, and a
/// single rank has the blocks that were observed of it.
pub proof fn blocks_add_up(
    ranks: Seq<Option<RankKvSnapshot>>,
    more: Seq<Option<RankKvSnapshot>>,
    rank: RankKvSnapshot,
)
    ensures
        total_blocks(ranks + more) == total_blocks(ranks) + total_blocks(more),
        used_blocks(ranks + more) == used_blocks(ranks) + used_blocks(more),
        observed_ranks(ranks + more) == observed_ranks(ranks) + observed_ranks(more),
        total_blocks(seq![Some(rank)]) == rank.total_blocks,
        used_blocks(seq![Some(rank)]) == rank.used_blocks,
        observed_ranks(seq![Some(rank)]) == 1,
        total_blocks(seq![None::<RankKvSnapshot>]) == 0,
        used_blocks(seq![None::<RankKvSnapshot>]) == 0,
        observed_ranks(seq![None::<RankKvSnapshot>]) == 0,
    decreases more.len(),
{
    reveal_with_fuel(total_blocks, 2);
    reveal_with_fuel(used_blocks, 2);
    reveal_with_fuel(observed_ranks, 2);
    if more.len() == 0 {
        assert(ranks + more =~= ranks);
    } else {
        blocks_add_up(ranks, more.drop_last(), rank);
        assert((ranks + more).drop_last() =~= ranks + more.drop_last());
        assert((ranks + more).last() == more.last());
    }
}

proof fn lemma_observed_all(ranks: Seq<Option<RankKvSnapshot>>)
    ensures
        observed_ranks(ranks) <= ranks.len(),
        observed_ranks(ranks) == ranks.len() <==> forall|i: int|
            0 <= i < ranks.len() ==> (#[trigger] ranks[i]) is Some,
        observed_ranks(ranks) == 0 <==> forall|i: int|
            0 <= i < ranks.len() ==> (#[trigger] ranks[i]) is None,
    decreases ranks.len(),
{
    if ranks.len() > 0 {
        let front = ranks.drop_last();
        lemma_observed_all(front);
        assert forall|i: int| 0 <= i < front.len() implies #[trigger] front[i] == ranks[i] by {}
        assert(ranks.last() == ranks[ranks.len() - 1]);
        if forall|i: int| 0 <= i < ranks.len() ==> (#[trigger] ranks[i]) is Some {
            assert forall|i: int| 0 <= i < front.len() implies (#[trigger] front[i]) is Some by {
                assert(ranks[i] is Some);
            }
        }
        if forall|i: int| 0 <= i < front.len() ==> (#[trigger] front[i]) is Some {
            assert forall|i: int| 0 <= i < front.len() implies (#[trigger] ranks[i]) is Some by {
                assert(front[i] is Some);
            }
        }
        if forall|i: int| 0 <= i < ranks.len() ==> (#[trigger] ranks[i]) is None {
            assert forall|i: int| 0 <= i < front.len() implies (#[trigger] front[i]) is None by {
                assert(ranks[i] is None);
            }
        }
        if forall|i: int| 0 <= i < front.len() ==> (#[trigger] front[i]) is None {
            assert forall|i: int| 0 <= i < front.len() implies (#[trigger] ranks[i]) is None by {
                assert(front[i] is None);
            }
        }
    }
}

/// The stats are told once every rank was observed, and tell the blocks of all
/// ranks in tokens.
pub proof fn stats_tell_all_ranks(kv: KvView, stats: KvCacheStats)
    requires
        stats_of(kv, stats),
    ensures
        forall|i: int| 0 <= i < kv.ranks.len() ==> (#[trigger] kv.ranks[i]) is Some,
        stats.model@ == kv.model,
        stats.kv_cache_capacity_tokens == total_blocks(kv.ranks) * kv.block_size_tokens as nat,
        stats.kv_cache_used_tokens == used_blocks(kv.ranks) * kv.block_size_tokens as nat,
        stats.kv_cache_free_tokens + stats.kv_cache_used_tokens == stats.kv_cache_capacity_tokens,
{
    lemma_observed_all(kv.ranks);
}

/// The stats are not told while no rank was observed, nor while some were not,
/// nor where they do not fit, and for no other reason.
pub proof fn stats_are_told_when_complete(
    state: Option<KvView>,
    error: KvCacheStatsUnavailable,
)
    requires
        stats_unavailable(state, error),
    ensures
        state is None ==> error is NoSnapshots,
        state matches Some(kv) ==> {
            let none = forall|i: int| 0 <= i < kv.ranks.len() ==> (#[trigger] kv.ranks[i]) is None;
            let all = forall|i: int| 0 <= i < kv.ranks.len() ==> (#[trigger] kv.ranks[i]) is Some;
            &&& none ==> error is NoSnapshots
            &&& !none && !all ==> (error matches KvCacheStatsUnavailable::IncompleteDpRanks {
                model,
                observed,
                expected,
            } && model@ == kv.model && observed == observed_ranks(kv.ranks) && observed < expected
                && expected == kv.ranks.len())
            &&& !none && all ==> (error matches KvCacheStatsUnavailable::TokenCountOverflow {
                model,
            } && model@ == kv.model && total_blocks(kv.ranks) * kv.block_size_tokens as nat
                > u64::MAX)
        },
{
    if let Some(kv) = state {
        lemma_observed_all(kv.ranks);
    }
}

/// An update is refused without a request id, without a model and without
/// anything to tell, in this order. Otherwise it is told to the subscribers, if
/// there are any, with the spaces around its names gone.
pub proof fn updates_are_told_or_refused(
    request_id: Seq<char>,
    model: Seq<char>,
    tokens_processed: Option<u64>,
    tokens_generated: Option<u64>,
    finished: bool,
    subscribers: usize,
    r: Result<Option<Vec<u8>>, RequestStatsPublishError>,
)
    requires
        publish_result(
            request_id,
            model,
            tokens_processed,
            tokens_generated,
            finished,
            subscribers,
            r,
        ),
    ensures
        ({
            let id = text::trimmed(request_id);
            let name = text::trimmed(model);
            let tells = tokens_processed is Some || tokens_generated is Some || finished;
            &&& id.len() == 0 ==> r == Err::<Option<Vec<u8>>, RequestStatsPublishError>(
                RequestStatsPublishError::EmptyRequestId,
            )
            &&& id.len() > 0 && name.len() == 0 ==> r == Err::<
                Option<Vec<u8>>,
                RequestStatsPublishError,
            >(RequestStatsPublishError::EmptyModel)
            &&& id.len() > 0 && name.len() > 0 && !tells ==> r == Err::<
                Option<Vec<u8>>,
                RequestStatsPublishError,
            >(RequestStatsPublishError::MissingCounters)
            &&& id.len() > 0 && name.len() > 0 && tells ==> r is Ok && (r->Ok_0 is Some
                <==> subscribers > 0)
            &&& id.len() > 0 && name.len() > 0 && tells && subscribers > 0 ==> r->Ok_0->0@
                == stats_line(id, name, tokens_processed, tokens_generated, finished)
        }),
{
}

} // verus!
