use phaneros::telemetry::{
    aggregate_from_row, AggregateStats,
    history_row, summary_from_row, CompressionMetrics, DriveStatus, HistoryRow, PhaseTimings, ProgressTracker,
    ProgressTrackerInner, SyncPhase, SyncSummary,
};

#[test]
fn phase_and_status_labels() {
    assert_eq!(SyncPhase::TicketAllocation.label(), "Ticket Allocation");
    assert_eq!(SyncPhase::UploadingPayloads.label(), "Uploading Payloads");
    assert_eq!(SyncPhase::Idle.label(), "Idle");
    assert_eq!(DriveStatus::Error("disk full".to_string()).label(), "Error: disk full");
    assert_eq!(DriveStatus::Stopped.label(), "Stopped");
}

#[test]
fn bandwidth_saved() {
    let m = CompressionMetrics { total_raw_bytes: 1000, total_compressed_bytes: 400, zstd_count: 5, bypassed_count: 0 };
    assert_eq!(m.bandwidth_saved_bytes(), 600);
    let grew = CompressionMetrics { total_raw_bytes: 10, total_compressed_bytes: 40, zstd_count: 0, bypassed_count: 1 };
    assert_eq!(grew.bandwidth_saved_bytes(), 0);
    assert_eq!(CompressionMetrics::default().bandwidth_saved_bytes(), 0);
}

#[test]
fn phase_durations_go_to_the_phase_that_ends() {
    let mut inner = ProgressTrackerInner::new();
    inner.set_phase_at(SyncPhase::Scanning, 100);
    inner.set_phase_at(SyncPhase::Diffing, 350);
    inner.set_phase_at(SyncPhase::UploadingPayloads, 400);
    inner.set_phase_at(SyncPhase::Converged, 1400);
    assert_eq!(inner.phase_timings.scan_duration, 250);
    assert_eq!(inner.phase_timings.diff_duration, 50);
    assert_eq!(inner.phase_timings.payload_transfer_duration, 1000);
    assert_eq!(inner.phase_timings.commit_duration, 0);
    assert_eq!(inner.current_phase, SyncPhase::Converged);
}

#[test]
fn speed_is_measured_over_three_seconds() {
    let mut inner = ProgressTrackerInner::new();
    inner.record_bytes_sent_at(1000, 0);
    assert_eq!(inner.instantaneous_speed(), 0);
    inner.record_bytes_sent_at(1000, 1_000_000_000);
    assert_eq!(inner.instantaneous_speed(), 2000);
    inner.record_bytes_sent_at(3000, 5_000_000_000);
    // Samples older than three seconds left the window: only one remains.
    assert_eq!(inner.samples.len(), 1);
    assert_eq!(inner.instantaneous_speed(), 0);
    assert_eq!(inner.peak_speed_bps, 2000);
    assert_eq!(inner.transfer.wire_bytes_sent, 5000);
    assert_eq!(inner.transfer.blobs_completed, 3);
}

#[test]
fn the_event_estimates_the_time_left() {
    let mut inner = ProgressTrackerInner::new();
    inner.transfer.logical_bytes = 10_000;
    inner.record_bytes_sent_at(1000, 0);
    inner.record_bytes_sent_at(1000, 1_000_000_000);
    let e = inner.current_event();
    assert_eq!(e.bytes_sent, 2000);
    assert_eq!(e.bytes_total, 10_000);
    assert_eq!(e.instantaneous_speed_bps, 2000);
    assert_eq!(e.eta_seconds, Some(4));
}

#[test]
fn finishing_averages_over_the_whole_session() {
    let mut inner = ProgressTrackerInner::new();
    inner.record_bytes_sent_at(3000, 0);
    let avg = inner.finish_at(2_000_000_000);
    assert_eq!(avg, 1500);
    assert_eq!(inner.phase_timings.total_duration, 2_000_000_000);
    let mut idle = ProgressTrackerInner::new();
    assert_eq!(idle.finish_at(0), 0);
}

#[test]
fn the_tracker_counts_blobs() {
    let mut t = ProgressTracker::new("notes".to_string());
    t.set_phase(SyncPhase::UploadingPayloads);
    t.record_blob_compressed(1000, 400, true);
    t.record_blob_compressed(10, 10, false);
    t.record_blob_skipped_dedup(50);
    t.set_blobs_total(4, 2000);
    t.record_bytes_sent(400);
    let e = t.current_event();
    assert_eq!(e.phase, SyncPhase::UploadingPayloads);
    assert_eq!(e.blobs_total, 4);
    assert_eq!(e.blobs_completed, 2);
    assert_eq!(e.bytes_sent, 400);
    let s = t.finalize();
    assert_eq!(s.drive_id, "notes");
    assert_eq!(s.compression.total_raw_bytes, 1010);
    assert_eq!(s.compression.total_compressed_bytes, 410);
    assert_eq!(s.compression.zstd_count, 1);
    assert_eq!(s.compression.bypassed_count, 1);
    assert_eq!(s.transfer.deduplicated_bytes_saved, 50);
    assert_eq!(s.transfer.blobs_skipped_dedup, 1);
    assert_eq!(s.session_id.len(), 16);
}

#[test]
fn session_ids_come_from_the_digest() {
    let s = SyncSummary::new_at("d".to_string(), 1786210714, 42);
    let expected = blake3::hash(b"1786210714:42").to_hex()[..16].to_string();
    assert_eq!(s.session_id, expected);
    assert_eq!(s.timestamp_epoch_sec, 1786210714);
    let t = PhaseTimings::default();
    assert_eq!(t.total_duration, 0);
}

#[test]
fn a_stored_session_reads_back() {
    let mut summary = SyncSummary::new("test_drive".to_string());
    summary.compression.total_raw_bytes = 10000;
    summary.transfer.wire_bytes_sent = 4000;
    summary.transfer.deduplicated_bytes_saved = 1000;
    summary.avg_upload_rate_bps = 50000;
    summary.phase_timings.total_duration = 2_500_999_999;
    let row = history_row(&summary);
    assert_eq!(row.drive_id, "test_drive");
    assert_eq!(row.raw_bytes, 10000);
    assert_eq!(row.wire_bytes, 4000);
    assert_eq!(row.dedup_bytes, 1000);
    assert_eq!(row.total_duration_ms, 2500);
    let back = summary_from_row(row);
    assert_eq!(back.drive_id, "test_drive");
    assert_eq!(back.session_id, summary.session_id);
    assert_eq!(back.compression.total_raw_bytes, 10000);
    assert_eq!(back.compression.total_compressed_bytes, 4000);
    assert_eq!(back.transfer.wire_bytes_sent, 4000);
    assert_eq!(back.transfer.logical_bytes, 10000);
    assert_eq!(back.transfer.deduplicated_bytes_saved, 1000);
    assert_eq!(back.avg_upload_rate_bps, 50000);
    assert_eq!(back.phase_timings.total_duration, 2_500_000_000);
    assert_eq!(back.timestamp_epoch_sec, summary.timestamp_epoch_sec);
}

#[test]
fn huge_stored_durations_are_capped() {
    let row = HistoryRow {
        id: "s".to_string(),
        drive_id: "d".to_string(),
        timestamp: -1,
        total_duration_ms: i64::MAX,
        scan_duration_ms: 0,
        diff_duration_ms: 0,
        upload_tickets_duration_ms: 0,
        payload_transfer_duration_ms: 0,
        commit_duration_ms: 0,
        materialize_duration_ms: 0,
        raw_bytes: 0,
        wire_bytes: 0,
        dedup_bytes: 0,
        avg_speed_bps: 0,
        peak_speed_bps: 0,
    };
    let back = summary_from_row(row);
    assert_eq!(back.phase_timings.total_duration, u64::MAX);
    assert_eq!(back.timestamp_epoch_sec, u64::MAX);
}

#[test]
fn aggregate_row_sums_read_back() {
    let stats = aggregate_from_row(3, Some(3000), Some(1200), Some(500), 400, Some(1_700_000_000));
    assert_eq!(
        stats,
        AggregateStats {
            total_syncs: 3,
            total_raw_bytes: 3000,
            total_wire_bytes: 1200,
            total_dedup_bytes: 500,
            avg_upload_rate_bps: 400,
            last_sync_timestamp_epoch_sec: Some(1_700_000_000),
        }
    );
    let empty = aggregate_from_row(0, None, None, None, 0, None);
    assert_eq!((empty.total_syncs, empty.total_raw_bytes, empty.last_sync_timestamp_epoch_sec), (0, 0, None));
}
