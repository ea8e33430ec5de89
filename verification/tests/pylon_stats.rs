use dynamo_core::pylon_stats::{
    request_stats_error, KvCacheSnapshot, KvCacheStats, KvCacheStatsUnavailable,
    KvCacheUpdateError, PublisherErrorKind, PylonStats, PylonStatsPublisher,
    RequestStatsPublishError, RequestStatsUpdate, DEFAULT_STATS_CHANNEL_CAPACITY,
};
use tokio::sync::broadcast;

fn request_update(tokens_generated: u64) -> RequestStatsUpdate<'static> {
    RequestStatsUpdate {
        request_id: "req-1",
        model: "model-a",
        tokens_processed: None,
        tokens_generated: Some(tokens_generated),
        finished: false,
    }
}

fn configured_stats(expected_dp_ranks: u32) -> PylonStats {
    let mut stats = PylonStats::default();
    stats
        .configure_kv_cache("model-a", expected_dp_ranks, 16)
        .unwrap();
    stats
}

fn kv_snapshot(rank: u32) -> KvCacheSnapshot {
    KvCacheSnapshot {
        dp_rank: rank,
        used_blocks: 4,
        total_blocks: 10,
    }
}

/// Publishes as a worker does: the line goes to those who listen.
fn publish(
    stats: &PylonStats,
    tx: &broadcast::Sender<Vec<u8>>,
    update: RequestStatsUpdate<'_>,
) -> Result<(), RequestStatsPublishError> {
    if let Some(line) = stats.publish_request_stats(update, tx.receiver_count())? {
        let _ = tx.send(line);
    }
    Ok(())
}

#[test]
fn pylon_stats_serializes_one_ndjson_line() {
    let stats = PylonStats::default();
    let line = stats
        .publish_request_stats(
            RequestStatsUpdate {
                request_id: " req-1 ",
                model: " model-a ",
                tokens_processed: Some(128),
                tokens_generated: Some(17),
                finished: false,
            },
            1,
        )
        .unwrap()
        .unwrap();
    assert_eq!(line.last(), Some(&b'\n'));
    assert_eq!(
        String::from_utf8(line.clone()).unwrap(),
        "{\"v\":1,\"type\":\"stats\",\"request_id\":\"req-1\",\"model\":\"model-a\",\
         \"tokens_processed\":128,\"tokens_generated\":17,\"finished\":false}\n"
    );
    let event: serde_json::Value = serde_json::from_slice(&line).unwrap();
    assert_eq!(event["v"], 1);
    assert_eq!(event["type"], "stats");
    assert_eq!(event["request_id"], "req-1");
    assert_eq!(event["model"], "model-a");
    assert_eq!(event["tokens_processed"], 128);
    assert_eq!(event["tokens_generated"], 17);
    assert_eq!(event["finished"], false);
    assert_eq!(event.as_object().unwrap().len(), 7);
}

#[test]
fn text_is_escaped_and_absent_counters_are_left_out() {
    let stats = PylonStats::default();
    let line = stats
        .publish_request_stats(
            RequestStatsUpdate {
                request_id: "a\"b\\c\n\u{1}é",
                model: "m",
                tokens_processed: None,
                tokens_generated: None,
                finished: true,
            },
            3,
        )
        .unwrap()
        .unwrap();
    let event: serde_json::Value = serde_json::from_slice(&line).unwrap();
    assert_eq!(event["request_id"], "a\"b\\c\n\u{1}é");
    assert_eq!(event["finished"], true);
    assert!(event.get("tokens_processed").is_none());
    assert!(event.get("tokens_generated").is_none());
}

#[test]
fn pylon_stats_rejects_malformed_events() {
    let stats = PylonStats::default();
    assert!(matches!(
        stats.publish_request_stats(
            RequestStatsUpdate {
                request_id: " ",
                ..request_update(1)
            },
            0
        ),
        Err(RequestStatsPublishError::EmptyRequestId)
    ));
    assert!(matches!(
        stats.publish_request_stats(
            RequestStatsUpdate {
                model: "",
                ..request_update(1)
            },
            0
        ),
        Err(RequestStatsPublishError::EmptyModel)
    ));
    assert!(matches!(
        stats.publish_request_stats(
            RequestStatsUpdate {
                tokens_generated: None,
                ..request_update(1)
            },
            0
        ),
        Err(RequestStatsPublishError::MissingCounters)
    ));
    assert!(stats
        .publish_request_stats(
            RequestStatsUpdate {
                tokens_generated: None,
                finished: true,
                ..request_update(1)
            },
            0
        )
        .is_ok());
}

#[test]
fn pylon_stats_slow_subscriber_loses_old_events_with_fixed_capacity() {
    let stats = PylonStats::default();
    let (tx, mut rx) = broadcast::channel(2);
    for count in 1..=3 {
        publish(&stats, &tx, request_update(count)).unwrap();
    }

    assert!(matches!(
        rx.try_recv(),
        Err(broadcast::error::TryRecvError::Lagged(1))
    ));
    let second: serde_json::Value = serde_json::from_slice(&rx.try_recv().unwrap()).unwrap();
    let third: serde_json::Value = serde_json::from_slice(&rx.try_recv().unwrap()).unwrap();
    assert_eq!(second["tokens_generated"], 2);
    assert_eq!(third["tokens_generated"], 3);
}

#[test]
fn pylon_stats_disconnected_subscriber_does_not_retain_or_reject_events() {
    let stats = PylonStats::default();
    let (tx, rx) = broadcast::channel(2);
    drop(rx);
    for count in 1..=10 {
        publish(&stats, &tx, request_update(count)).unwrap();
    }

    let mut rx = tx.subscribe();
    assert!(matches!(
        rx.try_recv(),
        Err(broadcast::error::TryRecvError::Empty)
    ));
    assert_eq!(DEFAULT_STATS_CHANNEL_CAPACITY, 1024);
}

#[test]
fn request_stats_producer_is_available_after_attachment() {
    let mut stats = PylonStats::default();
    assert!(!stats.request_stats_producer_available());

    stats.mark_request_stats_producer_available();
    assert!(stats.request_stats_producer_available());
}

#[test]
fn kv_cache_stats_is_not_ready_without_observations() {
    assert_eq!(
        PylonStats::default().kv_cache_stats(),
        Err(KvCacheStatsUnavailable::NoSnapshots)
    );
}

#[test]
fn kv_cache_rejects_invalid_configuration_and_unconfigured_updates() {
    let mut stats = PylonStats::default();
    assert_eq!(
        stats.configure_kv_cache(" ", 1, 16),
        Err(KvCacheUpdateError::EmptyModel)
    );
    assert_eq!(
        stats.configure_kv_cache("model-a", 0, 16),
        Err(KvCacheUpdateError::ZeroExpectedDpRanks)
    );
    assert_eq!(
        stats.configure_kv_cache("model-a", 1, 0),
        Err(KvCacheUpdateError::ZeroBlockSize)
    );
    assert_eq!(
        stats.update_kv_snapshot(kv_snapshot(0)),
        Err(KvCacheUpdateError::NotConfigured)
    );
}

#[test]
fn kv_cache_stats_waits_for_every_local_dp_rank_and_aggregates_tokens() {
    let mut stats = configured_stats(2);
    stats.update_kv_snapshot(kv_snapshot(0)).unwrap();
    assert_eq!(
        stats.kv_cache_stats(),
        Err(KvCacheStatsUnavailable::IncompleteDpRanks {
            model: "model-a".to_string(),
            observed: 1,
            expected: 2,
        })
    );

    let mut rank_one = kv_snapshot(1);
    rank_one.used_blocks = 6;
    rank_one.total_blocks = 20;
    stats.update_kv_snapshot(rank_one).unwrap();

    assert_eq!(
        stats.kv_cache_stats().unwrap(),
        KvCacheStats {
            model: "model-a".to_string(),
            kv_cache_capacity_tokens: 480,
            kv_cache_used_tokens: 160,
            kv_cache_free_tokens: 320,
        }
    );
}

#[test]
fn kv_cache_configuration_is_idempotent_but_cannot_change() {
    let mut stats = PylonStats::default();
    stats.configure_kv_cache("model-a", 2, 16).unwrap();
    stats.configure_kv_cache("model-a", 2, 16).unwrap();

    assert_eq!(
        stats.configure_kv_cache("model-b", 1, 32),
        Err(KvCacheUpdateError::ConflictingConfiguration {
            configured_model: "model-a".to_string(),
            configured_dp_ranks: 2,
            configured_block_size: 16,
        })
    );
}

#[test]
fn invalid_kv_snapshot_does_not_create_available_state() {
    let mut stats = configured_stats(1);
    let mut snapshot = kv_snapshot(0);
    snapshot.used_blocks = 11;

    assert_eq!(
        stats.update_kv_snapshot(snapshot),
        Err(KvCacheUpdateError::UsedBlocksExceedTotal {
            used_blocks: 11,
            total_blocks: 10,
        })
    );
    assert_eq!(
        stats.kv_cache_stats(),
        Err(KvCacheStatsUnavailable::NoSnapshots)
    );
    snapshot.total_blocks = 0;
    assert_eq!(
        stats.update_kv_snapshot(snapshot),
        Err(KvCacheUpdateError::ZeroTotalBlocks)
    );
}

#[test]
fn out_of_range_dp_rank_does_not_create_available_state() {
    let mut stats = configured_stats(1);

    assert_eq!(
        stats.update_kv_snapshot(kv_snapshot(1)),
        Err(KvCacheUpdateError::UnexpectedDpRank {
            dp_rank: 1,
            expected: 1,
        })
    );
    assert_eq!(
        stats.kv_cache_stats(),
        Err(KvCacheStatsUnavailable::NoSnapshots)
    );
}

#[test]
fn kv_cache_stats_fails_closed_on_token_count_overflow() {
    let mut stats = PylonStats::default();
    stats.configure_kv_cache("model-a", 1, 2).unwrap();
    stats
        .update_kv_snapshot(KvCacheSnapshot {
            dp_rank: 0,
            used_blocks: 0,
            total_blocks: u64::MAX,
        })
        .unwrap();

    let error = stats.kv_cache_stats().unwrap_err();
    assert_eq!(
        error,
        KvCacheStatsUnavailable::TokenCountOverflow {
            model: "model-a".to_string(),
        }
    );
    assert_eq!(error.response_code(), "kv_cache_stats_unavailable");
    assert_eq!(
        KvCacheStatsUnavailable::NoSnapshots.response_code(),
        "kv_cache_stats_not_ready"
    );
}

#[test]
fn publisher_uses_its_trimmed_model() {
    let mut stats = PylonStats::default();
    let publisher = PylonStatsPublisher::attach(&mut stats, " model-a ", 1, 16)
        .ok()
        .unwrap();
    assert!(stats.request_stats_producer_available());
    let line = publisher
        .publish_stats_event(&stats, "req", Some(3), None, false, 1)
        .unwrap()
        .unwrap();
    let event: serde_json::Value = serde_json::from_slice(&line).unwrap();
    assert_eq!(event["model"], "model-a");
    assert_eq!(event["tokens_processed"], 3);
    let error = publisher
        .publish_stats_event(&stats, "", Some(3), None, false, 1)
        .unwrap_err();
    assert_eq!(request_stats_error(&error), PublisherErrorKind::Value);
    assert_eq!(
        request_stats_error(&RequestStatsPublishError::Serialize),
        PublisherErrorKind::Runtime
    );
}

#[test]
fn publisher_refuses_what_the_cache_refuses() {
    let mut stats = PylonStats::default();
    assert_eq!(
        PylonStatsPublisher::attach(&mut stats, "", 1, 16).err(),
        Some(KvCacheUpdateError::EmptyModel)
    );
    assert!(!stats.request_stats_producer_available());
    let publisher = PylonStatsPublisher::attach(&mut stats, "m", 1, 16)
        .ok()
        .unwrap();
    assert_eq!(publisher.update_kv_snapshot(&mut stats, 0, 1, 2), Ok(()));
    assert_eq!(stats.kv_cache_stats().unwrap().kv_cache_free_tokens, 16);
    assert_eq!(
        publisher.update_kv_snapshot(&mut stats, 7, 1, 2),
        Err(KvCacheUpdateError::UnexpectedDpRank {
            dp_rank: 7,
            expected: 1
        })
    );
}

#[test]
fn request_id_and_model_are_escaped() {
    let stats = PylonStats::default();
    let line = stats
        .publish_request_stats(
            RequestStatsUpdate {
                request_id: "a\"b\\c\nd\te\u{1}f",
                model: "m\u{8}\u{c}\r\u{1f}\u{7f}\u{e9}/",
                tokens_processed: None,
                tokens_generated: None,
                finished: true,
            },
            1,
        )
        .unwrap()
        .unwrap();
    assert_eq!(
        String::from_utf8(line).unwrap(),
        "{\"v\":1,\"type\":\"stats\",\"request_id\":\"a\\\"b\\\\c\\nd\\te\\u0001f\",\
         \"model\":\"m\\b\\f\\r\\u001f\u{7f}\u{e9}/\",\"finished\":true}\n"
    );
}

#[test]
fn an_event_is_one_line_whatever_its_names() {
    let stats = PylonStats::default();
    let line = stats
        .publish_request_stats(
            RequestStatsUpdate {
                request_id: "a\nb",
                model: "c\r\nd",
                tokens_processed: Some(1),
                tokens_generated: Some(2),
                finished: false,
            },
            1,
        )
        .unwrap()
        .unwrap();
    assert_eq!(line.iter().position(|byte| *byte < 0x20), Some(line.len() - 1));
}
