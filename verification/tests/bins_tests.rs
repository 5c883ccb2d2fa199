use rust_qsim::event_sharing::bins::{
    bin_end, bin_start, is_bin_safely_closed, EventSharingServiceAdapter, ShutdownReport,
    BIN_FINALIZATION_LAG_SECS, DEFAULT_BIN_SIZE_SECS, DEFAULT_MAX_EVENTS_PER_BIN_CHUNK,
};
use rust_qsim::event_sharing::{InternalEventSharingRequest, InternalEventSharingRequestPayload};

fn event(now: u32, vehicle: &str) -> InternalEventSharingRequest {
    InternalEventSharingRequest {
        payload: InternalEventSharingRequestPayload {
            event_type: "entered link".to_string(),
            link_id: "l1".to_string(),
            vehicle_id: vehicle.to_string(),
            now,
            driver_id: None,
            network_mode: None,
            relative_position_on_link_bits: None,
            event_detected_at_realtime: Some(100),
            adapter_arrived_at_realtime: None,
            logger_send_started_realtime: None,
            seq_in_partition: 1,
            partition_id: 0,
        },
    }
}

fn vehicles(events: &[InternalEventSharingRequestPayload]) -> Vec<String> {
    events.iter().map(|e| e.vehicle_id.clone()).collect()
}

#[test]
fn bin_arithmetic() {
    assert_eq!(bin_start(0, 900), 0);
    assert_eq!(bin_start(899, 900), 0);
    assert_eq!(bin_start(900, 900), 900);
    assert_eq!(bin_start(1805, 900), 1800);
    assert_eq!(bin_end(1800, 900), 2700);
    assert_eq!(BIN_FINALIZATION_LAG_SECS, 1);
    assert_eq!(DEFAULT_BIN_SIZE_SECS, 900);
    assert_eq!(DEFAULT_MAX_EVENTS_PER_BIN_CHUNK, 10000);
}

#[test]
fn bin_closes_only_lag_after_its_end() {
    assert!(!is_bin_safely_closed(900, 899));
    assert!(!is_bin_safely_closed(900, 900));
    assert!(is_bin_safely_closed(900, 901));
    assert!(is_bin_safely_closed(900, 902));
    assert!(!is_bin_safely_closed(10, 10));
    assert!(is_bin_safely_closed(10, 11));
    assert!(is_bin_safely_closed(900, 5000));
}

#[test]
fn first_event_opens_bin_zero_and_sends_nothing() {
    let mut a = EventSharingServiceAdapter::new(900, 3);
    let out = a.on_request(event(5, "v1"), None);
    assert!(out.is_empty());
    assert_eq!(a.oldest_unfinalized_bin_start(), Some(0));
    assert_eq!(a.received_events_count(), 1);
}

#[test]
fn full_chunk_is_sent_at_once() {
    let mut a = EventSharingServiceAdapter::new(900, 2);
    assert!(a.on_request(event(5, "v1"), Some(40)).is_empty());
    let out = a.on_request(event(7, "v2"), Some(30));
    assert_eq!(out.len(), 1);
    let c = &out[0];
    assert_eq!(vehicles(&c.events), vec!["v1", "v2"]);
    assert_eq!(c.completed_bin_start, 0);
    assert_eq!(c.completed_bin_end, 900);
    assert!(!c.publish_snapshot);
    assert!(!c.empty_bin);
    assert_eq!(c.chunk_seq, 1);
    assert_eq!(c.batch_started_at_realtime, Some(30));
    assert_eq!(c.batch_id.len(), 16);
    assert_eq!(c.events[0].adapter_arrived_at_realtime, Some(40));
}

#[test]
fn closing_event_finalizes_bins_in_order() {
    let mut a = EventSharingServiceAdapter::new(900, 10);
    assert!(a.on_request(event(5, "v1"), None).is_empty());
    assert!(a.on_request(event(10, "v2"), None).is_empty());
    // 900, the bin's end, does not close [0, 900): an event at 901 would.
    assert!(a.on_request(event(900, "v3"), None).is_empty());
    let out = a.on_request(event(1805, "v4"), None);
    assert_eq!(out.len(), 2);
    assert_eq!(vehicles(&out[0].events), vec!["v1", "v2"]);
    assert_eq!((out[0].completed_bin_start, out[0].completed_bin_end), (0, 900));
    assert!(out[0].publish_snapshot && !out[0].empty_bin);
    assert_eq!(out[0].chunk_seq, 1);
    assert_eq!(vehicles(&out[1].events), vec!["v3"]);
    assert_eq!((out[1].completed_bin_start, out[1].completed_bin_end), (900, 1800));
    assert!(out[1].publish_snapshot);
    assert_eq!(a.oldest_unfinalized_bin_start(), Some(1800));
}

#[test]
fn bin_without_events_gets_empty_marker() {
    let mut a = EventSharingServiceAdapter::new(100, 10);
    assert!(a.on_request(event(5, "v1"), None).is_empty());
    let out = a.on_request(event(302, "v2"), None);
    assert_eq!(out.len(), 3);
    assert!(!out[0].empty_bin);
    assert_eq!(vehicles(&out[0].events), vec!["v1"]);
    assert!(out[1].empty_bin && out[1].publish_snapshot && out[1].events.is_empty());
    assert_eq!((out[1].completed_bin_start, out[1].completed_bin_end), (100, 200));
    assert_eq!(out[1].chunk_seq, 1);
    assert!(out[2].empty_bin);
    assert_eq!((out[2].completed_bin_start, out[2].completed_bin_end), (200, 300));
    assert_eq!(a.oldest_unfinalized_bin_start(), Some(300));
}

#[test]
fn final_chunk_after_streamed_chunks_is_numbered_on() {
    let mut a = EventSharingServiceAdapter::new(100, 2);
    a.on_request(event(1, "v1"), None);
    let first = a.on_request(event(2, "v2"), None);
    assert_eq!(first.len(), 1);
    assert_eq!(first[0].chunk_seq, 1);
    a.on_request(event(3, "v3"), None);
    let second = a.on_request(event(4, "v4"), None);
    assert_eq!(second[0].chunk_seq, 2);
    let fin = a.on_request(event(102, "v5"), None);
    assert_eq!(fin.len(), 1);
    assert!(fin[0].publish_snapshot && !fin[0].empty_bin);
    assert!(fin[0].events.is_empty());
    assert_eq!(fin[0].chunk_seq, 3);
    assert_eq!(fin[0].batch_started_at_realtime, None);
}

#[test]
fn late_event_stays_buffered() {
    let mut a = EventSharingServiceAdapter::new(100, 10);
    a.on_request(event(150, "v1"), None);
    let out = a.on_request(event(205, "v2"), None);
    // Only bin [100, 200) closes here; bin [0, 100) closed with the first event.
    assert_eq!(out.len(), 1);
    assert_eq!(a.oldest_unfinalized_bin_start(), Some(200));
    // An event of an already finalized bin is kept, not sent.
    let late = a.on_request(event(50, "v3"), None);
    assert!(late.is_empty());
    match a.on_shutdown() {
        ShutdownReport::UnfinalizedBins { oldest, oldest_end, latest, latest_event_count, oldest_event_count, received_events_count } => {
            assert_eq!(oldest, 200);
            assert_eq!(oldest_end, 300);
            assert_eq!(latest, 200);
            assert_eq!(latest_event_count, 1);
            assert_eq!(oldest_event_count, 1);
            assert_eq!(received_events_count, 3);
        }
        _ => panic!("expected unfinalized bins"),
    }
}

#[test]
fn shutdown_reports() {
    let a = EventSharingServiceAdapter::new(900, 10);
    assert!(matches!(a.on_shutdown(), ShutdownReport::NoOpenBins { received_events_count: 0 }));
    let mut b = EventSharingServiceAdapter::new(100, 1);
    let out = b.on_request(event(5, "v1"), None);
    assert_eq!(out.len(), 1);
    // The chunk went out, but bin [0, 100) is still open and keeps its (empty) state.
    match b.on_shutdown() {
        ShutdownReport::UnfinalizedBins { oldest, latest, latest_event_count, oldest_event_count, received_events_count, .. } => {
            assert_eq!((oldest, latest), (0, 0));
            assert_eq!((oldest_event_count, latest_event_count), (0, 0));
            assert_eq!(received_events_count, 1);
        }
        _ => panic!("expected unfinalized bins"),
    }
    let mut c = EventSharingServiceAdapter::new(100, 10);
    c.on_request(event(5, "v1"), None);
    c.on_request(event(100, "v2"), None);
    match c.on_shutdown() {
        ShutdownReport::UnfinalizedBins { oldest, latest, latest_event_count, oldest_event_count, .. } => {
            assert_eq!((oldest, latest), (0, 100));
            assert_eq!((oldest_event_count, latest_event_count), (1, 1));
        }
        _ => panic!("expected unfinalized bins"),
    }
}

#[test]
fn no_event_lost_over_a_run() {
    let mut a = EventSharingServiceAdapter::new(10, 3);
    let mut sent: Vec<u32> = Vec::new();
    for t in 0..100u32 {
        let name = format!("{}", t);
        for c in a.on_request(event(t, &name), None) {
            for e in &c.events {
                assert_eq!(e.now / 10 * 10, c.completed_bin_start);
                sent.push(e.vehicle_id.parse::<u32>().unwrap());
            }
        }
    }
    // Within each bin the events keep their order.
    for bin in 0..10u32 {
        let of_bin: Vec<u32> = sent.iter().copied().filter(|t| t / 10 == bin).collect();
        let mut sorted = of_bin.clone();
        sorted.sort();
        assert_eq!(of_bin, sorted);
    }
    // Every event but the last, still pending, went out exactly once.
    let mut all = sent.clone();
    all.sort();
    let expected: Vec<u32> = (0..99u32).collect();
    assert_eq!(all, expected);
    assert_eq!(a.oldest_unfinalized_bin_start(), Some(90));
}

#[test]
fn chunk_ids_are_version_7() {
    let mut a = EventSharingServiceAdapter::new(10, 2);
    let mut chunks = a.on_request(event(1, "v1"), None);
    chunks.extend(a.on_request(event(2, "v2"), None));
    chunks.extend(a.on_request(event(35, "v3"), None));
    assert_eq!(chunks.len(), 4);
    for c in &chunks {
        assert_eq!(c.batch_id.len(), 16);
        assert_eq!(c.batch_id[6] & 0xf0, 0x70);
        assert_eq!(c.batch_id[8] & 0xc0, 0x80);
    }
    assert_ne!(chunks[0].batch_id, chunks[1].batch_id);
}

#[test]
fn sorted_run_finalizes_bins_in_order_and_numbers_chunks() {
    let mut a = EventSharingServiceAdapter::new(10, 2);
    let mut chunks = Vec::new();
    for (i, t) in [0u32, 1, 3, 4, 5, 12, 13, 14, 31, 33, 47].iter().enumerate() {
        chunks.extend(a.on_request(event(*t, &format!("v{}", i)), None));
    }
    // Final chunks go to the bins 0, 10, 20, 30, ... each once, in this order.
    let finals: Vec<u32> = chunks.iter().filter(|c| c.publish_snapshot).map(|c| c.completed_bin_start).collect();
    assert_eq!(finals, vec![0, 10, 20, 30]);
    assert_eq!(a.oldest_unfinalized_bin_start(), Some(40));
    // Every other chunk is full; per bin the numbers count up from 1, and
    // nothing of a bin follows its final chunk.
    for bin in [0u32, 10, 20, 30, 40] {
        let of_bin: Vec<_> = chunks.iter().filter(|c| c.completed_bin_start == bin).collect();
        let seqs: Vec<usize> = of_bin.iter().map(|c| c.chunk_seq).collect();
        let expected: Vec<usize> = (1..=seqs.len()).collect();
        assert_eq!(seqs, expected);
        for (i, c) in of_bin.iter().enumerate() {
            if c.publish_snapshot {
                assert_eq!(i, of_bin.len() - 1);
            } else {
                assert_eq!(c.events.len(), 2);
                assert!(!c.empty_bin);
            }
        }
    }
    // Bin 0: chunks of 2, 2, then the final chunk with the last event.
    let bin0: Vec<usize> = chunks.iter().filter(|c| c.completed_bin_start == 0).map(|c| c.events.len()).collect();
    assert_eq!(bin0, vec![2, 2, 1]);
    // Bin 20 saw nothing: an empty marker.
    let bin20: Vec<_> = chunks.iter().filter(|c| c.completed_bin_start == 20).collect();
    assert_eq!(bin20.len(), 1);
    assert!(bin20[0].empty_bin && bin20[0].events.is_empty());
}

#[test]
fn event_one_second_after_the_end_closes_the_bin() {
    let mut a = EventSharingServiceAdapter::new(10, 100);
    assert!(a.on_request(event(5, "v1"), None).is_empty());
    let out = a.on_request(event(11, "v2"), None);
    assert_eq!(out.len(), 1);
    assert_eq!((out[0].completed_bin_start, out[0].completed_bin_end), (0, 10));
    assert_eq!(vehicles(&out[0].events), vec!["v1"]);
    assert!(out[0].publish_snapshot && !out[0].empty_bin);
    assert_eq!(out[0].chunk_seq, 1);
    assert_eq!(a.oldest_unfinalized_bin_start(), Some(10));
}
