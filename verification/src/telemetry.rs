//! What a sync session measures: its phases, compression and transfer
//! counters, phase durations, upload speed over a sliding window, and the
//! summary kept once it ends. Times are nanoseconds on the tracker's own
//! clock.
use vstd::prelude::*;

use std::collections::VecDeque;
use std::time::Instant;

use crate::clock::{epoch_seconds, instant_now, nanos_since, saturating_nanos};
use crate::digest::{blake3_digest, blake3_hex, hex_text};
use crate::text::{push_char, push_str};
use crate::units::{nat_text, push_decimal};

verus! {

/// The phase a sync session is in.
#[derive(Debug, Clone, Copy, PartialEq, Eq, Structural)]
pub enum SyncPhase {
    Idle,
    Scanning,
    Diffing,
    TicketAllocation,
    UploadingPayloads,
    Committing,
    Materializing,
    Converged,
    Failed,
}

pub open spec fn phase_label(p: SyncPhase) -> Seq<char> {
    match p {
        SyncPhase::Idle => "Idle"@,
        SyncPhase::Scanning => "Scanning"@,
        SyncPhase::Diffing => "Diffing"@,
        SyncPhase::TicketAllocation => "Ticket Allocation"@,
        SyncPhase::UploadingPayloads => "Uploading Payloads"@,
        SyncPhase::Committing => "Committing"@,
        SyncPhase::Materializing => "Materializing"@,
        SyncPhase::Converged => "Converged"@,
        SyncPhase::Failed => "Failed"@,
    }
}

impl SyncPhase {
    /// The phase as shown to people.
    pub fn label(&self) -> (r: &'static str)
        ensures
            r@ == phase_label(*self),
    {
        match self {
            SyncPhase::Idle => "Idle",
            SyncPhase::Scanning => "Scanning",
            SyncPhase::Diffing => "Diffing",
            SyncPhase::TicketAllocation => "Ticket Allocation",
            SyncPhase::UploadingPayloads => "Uploading Payloads",
            SyncPhase::Committing => "Committing",
            SyncPhase::Materializing => "Materializing",
            SyncPhase::Converged => "Converged",
            SyncPhase::Failed => "Failed",
        }
    }
}

/// The lifecycle of one drive's engine, as seen from outside.
#[derive(Debug, Clone)]
pub enum DriveStatus {
    Idle,
    Reconciling,
    Materializing,
    Stopped,
    Error(String),
}

pub open spec fn drive_status_label(s: DriveStatus) -> Seq<char> {
    match s {
        DriveStatus::Idle => "Idle"@,
        DriveStatus::Reconciling => "Reconciling"@,
        DriveStatus::Materializing => "Materializing"@,
        DriveStatus::Stopped => "Stopped"@,
        DriveStatus::Error(msg) => "Error: "@ + msg@,
    }
}

impl DriveStatus {
    /// The status as shown to people; an error shows its message.
    pub fn label(&self) -> (r: String)
        ensures
            r@ == drive_status_label(*self),
    {
        match self {
            DriveStatus::Idle => String::from_str("Idle"),
            DriveStatus::Reconciling => String::from_str("Reconciling"),
            DriveStatus::Materializing => String::from_str("Materializing"),
            DriveStatus::Stopped => String::from_str("Stopped"),
            DriveStatus::Error(msg) => {
                let mut r = String::from_str("Error: ");
                push_str(&mut r, msg.as_str());
                r
            },
        }
    }
}

/// Counters of the compression step.
#[derive(Debug, Clone, Copy)]
pub struct CompressionMetrics {
    pub total_raw_bytes: u64,
    pub total_compressed_bytes: u64,
    pub zstd_count: u64,
    pub bypassed_count: u64,
}

impl Default for CompressionMetrics {
    fn default() -> (r: Self)
        ensures
            r.total_raw_bytes == 0,
            r.total_compressed_bytes == 0,
            r.zstd_count == 0,
            r.bypassed_count == 0,
    {
        CompressionMetrics { total_raw_bytes: 0, total_compressed_bytes: 0, zstd_count: 0, bypassed_count: 0 }
    }
}

impl CompressionMetrics {
    /// The bytes that compression kept off the wire, none when it grew
    /// the data.
    pub fn bandwidth_saved_bytes(&self) -> (r: u64)
        ensures
            r == (if self.total_raw_bytes >= self.total_compressed_bytes {
                self.total_raw_bytes - self.total_compressed_bytes
            } else {
                0
            }),
    {
        self.total_raw_bytes.saturating_sub(self.total_compressed_bytes)
    }
}

/// Counters of the transfer step.
#[derive(Debug, Clone, Copy)]
pub struct TransferMetrics {
    pub logical_bytes: u64,
    pub deduplicated_bytes_saved: u64,
    pub wire_bytes_sent: u64,
    pub blobs_total: u64,
    pub blobs_completed: u64,
    pub blobs_skipped_dedup: u64,
}

impl Default for TransferMetrics {
    fn default() -> (r: Self)
        ensures
            r.logical_bytes == 0,
            r.deduplicated_bytes_saved == 0,
            r.wire_bytes_sent == 0,
            r.blobs_total == 0,
            r.blobs_completed == 0,
            r.blobs_skipped_dedup == 0,
    {
        TransferMetrics {
            logical_bytes: 0,
            deduplicated_bytes_saved: 0,
            wire_bytes_sent: 0,
            blobs_total: 0,
            blobs_completed: 0,
            blobs_skipped_dedup: 0,
        }
    }
}

/// How long each phase took, in nanoseconds.
#[derive(Debug, Clone, Copy)]
pub struct PhaseTimings {
    pub scan_duration: u64,
    pub diff_duration: u64,
    pub upload_tickets_duration: u64,
    pub payload_transfer_duration: u64,
    pub commit_duration: u64,
    pub materialize_duration: u64,
    pub total_duration: u64,
}

impl Default for PhaseTimings {
    fn default() -> (r: Self)
        ensures
            r.scan_duration == 0,
            r.diff_duration == 0,
            r.upload_tickets_duration == 0,
            r.payload_transfer_duration == 0,
            r.commit_duration == 0,
            r.materialize_duration == 0,
            r.total_duration == 0,
    {
        PhaseTimings {
            scan_duration: 0,
            diff_duration: 0,
            upload_tickets_duration: 0,
            payload_transfer_duration: 0,
            commit_duration: 0,
            materialize_duration: 0,
            total_duration: 0,
        }
    }
}

pub open spec fn zero_compression() -> CompressionMetrics {
    CompressionMetrics { total_raw_bytes: 0, total_compressed_bytes: 0, zstd_count: 0, bypassed_count: 0 }
}

pub open spec fn zero_transfer() -> TransferMetrics {
    TransferMetrics {
        logical_bytes: 0,
        deduplicated_bytes_saved: 0,
        wire_bytes_sent: 0,
        blobs_total: 0,
        blobs_completed: 0,
        blobs_skipped_dedup: 0,
    }
}

pub open spec fn zero_timings() -> PhaseTimings {
    PhaseTimings {
        scan_duration: 0,
        diff_duration: 0,
        upload_tickets_duration: 0,
        payload_transfer_duration: 0,
        commit_duration: 0,
        materialize_duration: 0,
        total_duration: 0,
    }
}

/// The record of a finished sync session.
#[derive(Debug, Clone)]
pub struct SyncSummary {
    pub session_id: String,
    pub drive_id: String,
    pub timestamp_epoch_sec: u64,
    pub phase_timings: PhaseTimings,
    pub compression: CompressionMetrics,
    pub transfer: TransferMetrics,
    pub avg_upload_rate_bps: u64,
    pub peak_upload_rate_bps: u64,
}

/// The text whose digest names a session: the timestamp and a nonce.
pub open spec fn session_seed(timestamp: nat, nonce: nat) -> Seq<char> {
    nat_text(timestamp) + seq![':'] + nat_text(nonce)
}

/// A session identifier: the first 16 hexadecimal digits of the BLAKE3
/// digest of the seed's UTF-8 bytes.
pub open spec fn session_id_text(timestamp: nat, nonce: nat) -> Seq<char> {
    hex_text(blake3_digest(vstd::utf8::encode_utf8(session_seed(timestamp, nonce)))).subrange(0, 16)
}

impl SyncSummary {
    /// An empty summary for a session of `drive_id` that started at
    /// `timestamp_epoch_sec`, named after it and `nonce`.
    pub fn new_at(drive_id: String, timestamp_epoch_sec: u64, nonce: u128) -> (r: Self)
        ensures
            r.session_id@ == session_id_text(timestamp_epoch_sec as nat, nonce as nat),
            r.drive_id == drive_id,
            r.timestamp_epoch_sec == timestamp_epoch_sec,
            r.phase_timings == zero_timings(),
            r.compression == zero_compression(),
            r.transfer == zero_transfer(),
            r.avg_upload_rate_bps == 0,
            r.peak_upload_rate_bps == 0,
    {
        let mut seed = String::new();
        push_decimal(&mut seed, timestamp_epoch_sec as u128);
        push_char(&mut seed, ':');
        push_decimal(&mut seed, nonce);
        proof {
            assert(seed@ =~= session_seed(timestamp_epoch_sec as nat, nonce as nat));
        }
        let hex = blake3_hex(seed.as_str().as_bytes());
        let session_id = crate::text::string_from_range(&crate::text::chars_of(hex.as_str()), 0, 16);
        SyncSummary {
            session_id,
            drive_id,
            timestamp_epoch_sec,
            phase_timings: PhaseTimings::default(),
            compression: CompressionMetrics::default(),
            transfer: TransferMetrics::default(),
            avg_upload_rate_bps: 0,
            peak_upload_rate_bps: 0,
        }
    }

    /// An empty summary for a session of `drive_id` starting now.
    pub fn new(drive_id: String) -> (r: Self)
        ensures
            r.drive_id == drive_id,
            exists|nonce: nat| r.session_id@ == session_id_text(r.timestamp_epoch_sec as nat, nonce),
            r.phase_timings == zero_timings(),
            r.compression == zero_compression(),
            r.transfer == zero_transfer(),
            r.avg_upload_rate_bps == 0,
            r.peak_upload_rate_bps == 0,
    {
        let timestamp = epoch_seconds();
        let start = instant_now();
        let nonce = nanos_since(&start);
        SyncSummary::new_at(drive_id, timestamp, nonce)
    }
}

// ---------------------------------------------------------------------
// Progress

/// The state of a session as the progress tracker sees it.
#[derive(Debug, Clone, Copy)]
pub struct SyncProgressEvent {
    pub phase: SyncPhase,
    pub blobs_completed: u64,
    pub blobs_total: u64,
    pub bytes_sent: u64,
    pub bytes_total: u64,
    pub instantaneous_speed_bps: u64,
    pub eta_seconds: Option<u64>,
}

/// Bytes sent at a time.
#[derive(Debug, Clone, Copy)]
pub struct Sample {
    pub at: u64,
    pub bytes: u64,
}

/// The span over which the speed is measured: three seconds.
pub open spec fn window_nanos() -> int {
    3_000_000_000
}

/// The samples still inside the window that ends at `now`: the oldest go
/// while they are more than three seconds old.
pub open spec fn prune_samples(s: Seq<Sample>, now: u64) -> Seq<Sample>
    decreases s.len(),
{
    if s.len() > 0 && now - s[0].at > window_nanos() {
        prune_samples(s.drop_first(), now)
    } else {
        s
    }
}

pub open spec fn bytes_sum(s: Seq<Sample>) -> nat
    decreases s.len(),
{
    if s.len() == 0 {
        0
    } else {
        bytes_sum(s.drop_last()) + s.last().bytes as nat
    }
}

/// `n / d`, capped at `u64::MAX`.
pub open spec fn capped_quotient(n: nat, d: nat) -> u64
    recommends
        d > 0,
{
    if n / d > u64::MAX {
        u64::MAX
    } else {
        (n / d) as u64
    }
}

/// The speed over a window of samples, in bytes per second: what they
/// carry over the time from the first to the last; 0 for fewer than two
/// samples or no elapsed time.
pub open spec fn window_speed(s: Seq<Sample>) -> u64 {
    if s.len() < 2 || s.last().at <= s[0].at {
        0
    } else {
        capped_quotient(bytes_sum(s) * 1_000_000_000, (s.last().at - s[0].at) as nat)
    }
}

/// The average rate of a session, in bytes per second.
pub open spec fn average_rate(bytes: nat, nanos: nat) -> u64 {
    if nanos > 0 {
        capped_quotient(bytes * 1_000_000_000, nanos)
    } else {
        0
    }
}

/// The seconds left at `speed` for the bytes not sent yet, when the speed
/// is known and bytes remain.
pub open spec fn eta_of(sent: u64, total: u64, speed: u64) -> Option<u64> {
    if speed > 0 && total > sent {
        Some(((total - sent) / (speed as int)) as u64)
    } else {
        None
    }
}

proof fn lemma_bytes_sum_bound(s: Seq<Sample>)
    ensures
        bytes_sum(s) <= s.len() * 0xffff_ffff_ffff_ffffnat,
    decreases s.len(),
{
    if s.len() > 0 {
        lemma_bytes_sum_bound(s.drop_last());
    }
}

proof fn lemma_large_sum_saturates(sum: nat, d: nat)
    requires
        0 < d <= 0xffff_ffff_ffff_ffff,
        sum * 1_000_000_000 > 0xffff_ffff_ffff_ffff_ffff_ffff_ffff_ffffnat - 1_000_000_000,
    ensures
        (sum * 1_000_000_000) / d > u64::MAX,
{
    assert((sum * 1_000_000_000) / d > u64::MAX) by (nonlinear_arith)
        requires
            0 < d <= 0xffff_ffff_ffff_ffff,
            sum * 1_000_000_000 > 0xffff_ffff_ffff_ffff_ffff_ffff_ffff_ffffnat - 1_000_000_000,
    ;
}

fn capped_div(n: u128, d: u128) -> (r: u64)
    requires
        d > 0,
    ensures
        r == capped_quotient(n as nat, d as nat),
{
    let q = n / d;
    if q > u64::MAX as u128 {
        u64::MAX
    } else {
        q as u64
    }
}

/// The counters and clock readings of a session in progress.
#[derive(Debug)]
pub struct ProgressTrackerInner {
    pub current_phase: SyncPhase,
    pub compression: CompressionMetrics,
    pub transfer: TransferMetrics,
    pub phase_timings: PhaseTimings,
    pub start_time: u64,
    pub phase_start_time: u64,
    pub peak_speed_bps: u64,
    pub samples: VecDeque<Sample>,
}

/// `after` is `before` moved to `phase` at time `now`: the phase that ends
/// gets the time since it began (phases without a duration of their own get
/// none), and nothing else changes.
pub open spec fn phase_moved(before: ProgressTrackerInner, after: ProgressTrackerInner, phase: SyncPhase, now: u64) -> bool {
    let elapsed = (if now >= before.phase_start_time {
        now - before.phase_start_time
    } else {
        0
    }) as u64;
    let t = before.phase_timings;
    &&& after.phase_timings == match before.current_phase {
        SyncPhase::Scanning => PhaseTimings { scan_duration: elapsed, ..t },
        SyncPhase::Diffing => PhaseTimings { diff_duration: elapsed, ..t },
        SyncPhase::TicketAllocation => PhaseTimings { upload_tickets_duration: elapsed, ..t },
        SyncPhase::UploadingPayloads => PhaseTimings { payload_transfer_duration: elapsed, ..t },
        SyncPhase::Committing => PhaseTimings { commit_duration: elapsed, ..t },
        SyncPhase::Materializing => PhaseTimings { materialize_duration: elapsed, ..t },
        _ => t,
    }
    &&& after.current_phase == phase
    &&& after.phase_start_time == now
    &&& after.compression == before.compression
    &&& after.transfer == before.transfer
    &&& after.start_time == before.start_time
    &&& after.peak_speed_bps == before.peak_speed_bps
    &&& after.recent() == before.recent()
}

/// `after` is `before` after `wire_bytes` were sent for a blob at time `now`:
/// the bytes and the blob are counted, the sample joins the window (older
/// ones leave it), and the peak rises to the window's speed if that is
/// higher.
pub open spec fn bytes_recorded(before: ProgressTrackerInner, after: ProgressTrackerInner, wire_bytes: u64, now: u64) -> bool {
    &&& after.transfer == (TransferMetrics {
        wire_bytes_sent: (before.transfer.wire_bytes_sent + wire_bytes) as u64,
        blobs_completed: (before.transfer.blobs_completed + 1) as u64,
        ..before.transfer
    })
    &&& after.recent() == prune_samples(before.recent().push(Sample { at: now, bytes: wire_bytes }), now)
    &&& after.peak_speed_bps == (if window_speed(after.recent()) > before.peak_speed_bps {
        window_speed(after.recent())
    } else {
        before.peak_speed_bps
    })
    &&& after.current_phase == before.current_phase
    &&& after.compression == before.compression
    &&& after.phase_timings == before.phase_timings
    &&& after.start_time == before.start_time
    &&& after.phase_start_time == before.phase_start_time
}

/// `after` is `before` ended at time `now`: the total duration is the time
/// since the session started (none if `now` comes earlier), and nothing
/// else changes.
pub open spec fn session_finished(before: ProgressTrackerInner, after: ProgressTrackerInner, now: u64) -> bool {
    &&& after.phase_timings == (PhaseTimings {
        total_duration: (if now >= before.start_time {
            now - before.start_time
        } else {
            0
        }) as u64,
        ..before.phase_timings
    })
    &&& after.current_phase == before.current_phase
    &&& after.compression == before.compression
    &&& after.transfer == before.transfer
    &&& after.start_time == before.start_time
    &&& after.phase_start_time == before.phase_start_time
    &&& after.peak_speed_bps == before.peak_speed_bps
    &&& after.recent() == before.recent()
}

impl ProgressTrackerInner {
    /// The recent samples, oldest first.
    pub open spec fn recent(&self) -> Seq<Sample> {
        self.samples@
    }

    /// A session that has just started, at time 0.
    pub fn new() -> (r: Self)
        ensures
            r.current_phase == SyncPhase::Idle,
            r.compression == zero_compression(),
            r.transfer == zero_transfer(),
            r.phase_timings == zero_timings(),
            r.start_time == 0,
            r.phase_start_time == 0,
            r.peak_speed_bps == 0,
            r.recent() == Seq::<Sample>::empty(),
    {
        ProgressTrackerInner {
            current_phase: SyncPhase::Idle,
            compression: CompressionMetrics::default(),
            transfer: TransferMetrics::default(),
            phase_timings: PhaseTimings::default(),
            start_time: 0,
            phase_start_time: 0,
            peak_speed_bps: 0,
            samples: VecDeque::new(),
        }
    }

    /// Moves to `phase` at time `now`: the phase that ends gets the time
    /// since it began (phases without a duration of their own get none).
    pub fn set_phase_at(&mut self, phase: SyncPhase, now: u64)
        ensures
            phase_moved(*old(self), *final(self), phase, now),
    {
        let elapsed = now.saturating_sub(self.phase_start_time);
        match self.current_phase {
            SyncPhase::Scanning => self.phase_timings.scan_duration = elapsed,
            SyncPhase::Diffing => self.phase_timings.diff_duration = elapsed,
            SyncPhase::TicketAllocation => self.phase_timings.upload_tickets_duration = elapsed,
            SyncPhase::UploadingPayloads => self.phase_timings.payload_transfer_duration = elapsed,
            SyncPhase::Committing => self.phase_timings.commit_duration = elapsed,
            SyncPhase::Materializing => self.phase_timings.materialize_duration = elapsed,
            _ => {},
        }
        self.current_phase = phase;
        self.phase_start_time = now;
    }

    /// The speed over the samples in the window.
    pub fn instantaneous_speed(&self) -> (r: u64)
        ensures
            r == window_speed(self.recent()),
    {
        let n = self.samples.len();
        if n < 2 {
            return 0;
        }
        let first = self.samples[0].at;
        let last = self.samples[n - 1].at;
        if last <= first {
            return 0;
        }
        let ghost s = self.samples@;
        let mut sum: u128 = 0;
        let mut i: usize = 0;
        while i < n
            invariant
                s == self.samples@,
                n == s.len(),
                0 <= i <= n,
                sum == bytes_sum(s.subrange(0, i as int)),
            decreases n - i,
        {
            proof {
                assert(s.subrange(0, i + 1).drop_last() =~= s.subrange(0, i as int));
                lemma_bytes_sum_bound(s.subrange(0, i as int));
                assert(bytes_sum(s.subrange(0, i as int)) <= i * 0xffff_ffff_ffff_ffffnat);
                assert(i * 0xffff_ffff_ffff_ffffnat <= 0xffff_ffff_ffff_ffffnat * 0xffff_ffff_ffff_ffffnat)
                    by (nonlinear_arith)
                    requires
                        i <= 0xffff_ffff_ffff_ffffnat,
                ;
            }
            sum = sum + self.samples[i].bytes as u128;
            i = i + 1;
        }
        proof {
            assert(s.subrange(0, n as int) =~= s);
        }
        let d = (last - first) as u128;
        if sum > 0xffff_ffff_ffff_ffff_ffff_ffff_ffff_ffffu128 / 1_000_000_000 {
            proof {
                assert(sum as nat * 1_000_000_000 > 0xffff_ffff_ffff_ffff_ffff_ffff_ffff_ffffnat - 1_000_000_000)
                    by (nonlinear_arith)
                    requires
                        sum > 0xffff_ffff_ffff_ffff_ffff_ffff_ffff_ffffu128 / 1_000_000_000,
                ;
                lemma_large_sum_saturates(sum as nat, d as nat);
            }
            u64::MAX
        } else {
            capped_div(sum * 1_000_000_000, d)
        }
    }

    /// Counts `wire_bytes` sent at time `now`: the sample joins the window,
    /// samples older than three seconds leave it, and the peak speed rises
    /// to the window's speed if that is higher.
    pub fn record_bytes_sent_at(&mut self, wire_bytes: u64, now: u64)
        requires
            old(self).transfer.wire_bytes_sent + wire_bytes <= u64::MAX,
            old(self).transfer.blobs_completed < u64::MAX,
        ensures
            bytes_recorded(*old(self), *final(self), wire_bytes, now),
    {
        self.transfer.wire_bytes_sent = self.transfer.wire_bytes_sent + wire_bytes;
        self.transfer.blobs_completed = self.transfer.blobs_completed + 1;
        self.samples.push_back(Sample { at: now, bytes: wire_bytes });
        let ghost all = self.samples@;
        let ghost t0 = self.transfer;
        let ghost c0 = self.compression;
        let ghost timings0 = self.phase_timings;
        loop
            invariant
                prune_samples(self.samples@, now) == prune_samples(all, now),
                self.transfer == t0,
                self.compression == c0,
                self.phase_timings == timings0,
                self.current_phase == old(self).current_phase,
                self.start_time == old(self).start_time,
                self.phase_start_time == old(self).phase_start_time,
                self.peak_speed_bps == old(self).peak_speed_bps,
            ensures
                self.samples@ == prune_samples(all, now),
            decreases self.samples@.len(),
        {
            if self.samples.len() == 0 {
                break;
            }
            let front_at = self.samples[0].at;
            if now > front_at && now - front_at > 3_000_000_000 {
                let ghost pre = self.samples@;
                self.samples.pop_front();
                proof {
                    assert(self.samples@ =~= pre.drop_first());
                }
            } else {
                break;
            }
        }
        let speed = self.instantaneous_speed();
        if speed > self.peak_speed_bps {
            self.peak_speed_bps = speed;
        }
    }

    /// The progress as an event.
    pub fn current_event(&self) -> (r: SyncProgressEvent)
        ensures
            r.phase == self.current_phase,
            r.blobs_completed == self.transfer.blobs_completed,
            r.blobs_total == self.transfer.blobs_total,
            r.bytes_sent == self.transfer.wire_bytes_sent,
            r.bytes_total == self.transfer.logical_bytes,
            r.instantaneous_speed_bps == window_speed(self.recent()),
            r.eta_seconds == eta_of(self.transfer.wire_bytes_sent, self.transfer.logical_bytes, window_speed(self.recent())),
    {
        let speed = self.instantaneous_speed();
        let bytes_sent = self.transfer.wire_bytes_sent;
        let bytes_total = self.transfer.logical_bytes;
        let eta_seconds = if speed > 0 && bytes_total > bytes_sent {
            Some((bytes_total - bytes_sent) / speed)
        } else {
            None
        };
        SyncProgressEvent {
            phase: self.current_phase,
            blobs_completed: self.transfer.blobs_completed,
            blobs_total: self.transfer.blobs_total,
            bytes_sent,
            bytes_total,
            instantaneous_speed_bps: speed,
            eta_seconds,
        }
    }

    /// Ends the session at time `now`: the total duration is the time since
    /// it started; returns the average upload rate over that time.
    pub fn finish_at(&mut self, now: u64) -> (r: u64)
        ensures
            final(self).phase_timings == (PhaseTimings {
                total_duration: (if now >= old(self).start_time {
                    now - old(self).start_time
                } else {
                    0
                }) as u64,
                ..old(self).phase_timings
            }),
            r == average_rate(
                old(self).transfer.wire_bytes_sent as nat,
                final(self).phase_timings.total_duration as nat,
            ),
            final(self).current_phase == old(self).current_phase,
            final(self).compression == old(self).compression,
            final(self).transfer == old(self).transfer,
            final(self).start_time == old(self).start_time,
            final(self).phase_start_time == old(self).phase_start_time,
            final(self).peak_speed_bps == old(self).peak_speed_bps,
            final(self).recent() == old(self).recent(),
    {
        let total = now.saturating_sub(self.start_time);
        self.phase_timings.total_duration = total;
        if total > 0 {
            capped_div(self.transfer.wire_bytes_sent as u128 * 1_000_000_000, total as u128)
        } else {
            0
        }
    }
}

/// Tracks a sync session of a drive on a clock of its own.
#[derive(Debug)]
pub struct ProgressTracker {
    inner: ProgressTrackerInner,
    clock: Instant,
    drive_id: String,
}

impl ProgressTracker {
    /// What the tracker has counted.
    pub closed spec fn state(&self) -> ProgressTrackerInner {
        self.inner
    }

    /// The drive it tracks.
    pub closed spec fn drive(&self) -> Seq<char> {
        self.drive_id@
    }

    /// The reading of the monotonic clock at which the session started;
    /// every duration is measured from it.
    pub closed spec fn started_at(&self) -> Instant {
        self.clock
    }

    fn now(&self) -> (r: u64) {
        saturating_nanos(nanos_since(&self.clock))
    }

    /// A tracker for a session of `drive_id` starting now, idle.
    pub fn new(drive_id: String) -> (r: Self)
        ensures
            r.drive() == drive_id@,
            r.state().current_phase == SyncPhase::Idle,
            r.state().compression == zero_compression(),
            r.state().transfer == zero_transfer(),
            r.state().phase_timings == zero_timings(),
            r.state().peak_speed_bps == 0,
            r.state().recent() == Seq::<Sample>::empty(),
    {
        ProgressTracker { inner: ProgressTrackerInner::new(), clock: instant_now(), drive_id }
    }

    /// Moves to `phase`, recording how long the phase that ends took.
    pub fn set_phase(&mut self, phase: SyncPhase)
        ensures
            exists|now: u64| phase_moved(old(self).state(), final(self).state(), phase, now),
            final(self).drive() == old(self).drive(),
            final(self).started_at() == old(self).started_at(),
    {
        let now = self.now();
        self.inner.set_phase_at(phase, now);
    }

    /// Counts a compressed blob: its size before and after, and whether
    /// zstd was used or compression bypassed.
    pub fn record_blob_compressed(&mut self, raw_bytes: u64, compressed_bytes: u64, is_zstd: bool)
        requires
            old(self).state().compression.total_raw_bytes + raw_bytes <= u64::MAX,
            old(self).state().compression.total_compressed_bytes + compressed_bytes <= u64::MAX,
            is_zstd ==> old(self).state().compression.zstd_count < u64::MAX,
            !is_zstd ==> old(self).state().compression.bypassed_count < u64::MAX,
        ensures
            final(self).state().compression == (CompressionMetrics {
                total_raw_bytes: (old(self).state().compression.total_raw_bytes + raw_bytes) as u64,
                total_compressed_bytes: (old(self).state().compression.total_compressed_bytes
                    + compressed_bytes) as u64,
                zstd_count: (old(self).state().compression.zstd_count + if is_zstd {
                    1int
                } else {
                    0int
                }) as u64,
                bypassed_count: (old(self).state().compression.bypassed_count + if is_zstd {
                    0int
                } else {
                    1int
                }) as u64,
            }),
            final(self).state().transfer == old(self).state().transfer,
            final(self).state().current_phase == old(self).state().current_phase,
            final(self).state().phase_timings == old(self).state().phase_timings,
            final(self).state().peak_speed_bps == old(self).state().peak_speed_bps,
            final(self).state().recent() == old(self).state().recent(),
            final(self).drive() == old(self).drive(),
            final(self).started_at() == old(self).started_at(),
    {
        self.inner.compression.total_raw_bytes = self.inner.compression.total_raw_bytes + raw_bytes;
        self.inner.compression.total_compressed_bytes = self.inner.compression.total_compressed_bytes
            + compressed_bytes;
        if is_zstd {
            self.inner.compression.zstd_count = self.inner.compression.zstd_count + 1;
        } else {
            self.inner.compression.bypassed_count = self.inner.compression.bypassed_count + 1;
        }
    }

    /// Counts a blob the store already had: its bytes were saved, and it
    /// is done.
    pub fn record_blob_skipped_dedup(&mut self, raw_bytes: u64)
        requires
            old(self).state().transfer.deduplicated_bytes_saved + raw_bytes <= u64::MAX,
            old(self).state().transfer.blobs_skipped_dedup < u64::MAX,
            old(self).state().transfer.blobs_completed < u64::MAX,
        ensures
            final(self).state().transfer == (TransferMetrics {
                deduplicated_bytes_saved: (old(self).state().transfer.deduplicated_bytes_saved
                    + raw_bytes) as u64,
                blobs_skipped_dedup: (old(self).state().transfer.blobs_skipped_dedup + 1) as u64,
                blobs_completed: (old(self).state().transfer.blobs_completed + 1) as u64,
                ..old(self).state().transfer
            }),
            final(self).state().compression == old(self).state().compression,
            final(self).state().current_phase == old(self).state().current_phase,
            final(self).state().phase_timings == old(self).state().phase_timings,
            final(self).state().peak_speed_bps == old(self).state().peak_speed_bps,
            final(self).state().recent() == old(self).state().recent(),
            final(self).drive() == old(self).drive(),
            final(self).started_at() == old(self).started_at(),
    {
        self.inner.transfer.deduplicated_bytes_saved = self.inner.transfer.deduplicated_bytes_saved
            + raw_bytes;
        self.inner.transfer.blobs_skipped_dedup = self.inner.transfer.blobs_skipped_dedup + 1;
        self.inner.transfer.blobs_completed = self.inner.transfer.blobs_completed + 1;
    }

    /// Sets how many blobs and logical bytes the session moves.
    pub fn set_blobs_total(&mut self, total: u64, logical_bytes: u64)
        ensures
            final(self).state().transfer == (TransferMetrics {
                blobs_total: total,
                logical_bytes,
                ..old(self).state().transfer
            }),
            final(self).state().compression == old(self).state().compression,
            final(self).state().current_phase == old(self).state().current_phase,
            final(self).state().phase_timings == old(self).state().phase_timings,
            final(self).state().peak_speed_bps == old(self).state().peak_speed_bps,
            final(self).state().recent() == old(self).state().recent(),
            final(self).drive() == old(self).drive(),
            final(self).started_at() == old(self).started_at(),
    {
        self.inner.transfer.blobs_total = total;
        self.inner.transfer.logical_bytes = logical_bytes;
    }

    /// Counts bytes sent for a blob now (see
    /// [`ProgressTrackerInner::record_bytes_sent_at`]).
    pub fn record_bytes_sent(&mut self, wire_bytes: u64)
        requires
            old(self).state().transfer.wire_bytes_sent + wire_bytes <= u64::MAX,
            old(self).state().transfer.blobs_completed < u64::MAX,
        ensures
            final(self).state().transfer == (TransferMetrics {
                wire_bytes_sent: (old(self).state().transfer.wire_bytes_sent + wire_bytes) as u64,
                blobs_completed: (old(self).state().transfer.blobs_completed + 1) as u64,
                ..old(self).state().transfer
            }),
            exists|now: u64| bytes_recorded(old(self).state(), final(self).state(), wire_bytes, now),
            final(self).drive() == old(self).drive(),
            final(self).started_at() == old(self).started_at(),
    {
        let now = self.now();
        self.inner.record_bytes_sent_at(wire_bytes, now);
    }

    /// The progress as an event.
    pub fn current_event(&self) -> (r: SyncProgressEvent)
        ensures
            r.phase == self.state().current_phase,
            r.blobs_completed == self.state().transfer.blobs_completed,
            r.blobs_total == self.state().transfer.blobs_total,
            r.bytes_sent == self.state().transfer.wire_bytes_sent,
            r.bytes_total == self.state().transfer.logical_bytes,
            r.instantaneous_speed_bps == window_speed(self.state().recent()),
            r.eta_seconds == eta_of(
                self.state().transfer.wire_bytes_sent,
                self.state().transfer.logical_bytes,
                window_speed(self.state().recent()),
            ),
    {
        self.inner.current_event()
    }

    /// Ends the session: its summary, with the counters, the phase
    /// durations, the average rate over the whole session and the peak
    /// speed. The total duration is the time since the session started, as
    /// the tracker's clock reads it now.
    pub fn finalize(&mut self) -> (r: SyncSummary)
        ensures
            exists|now: u64| session_finished(old(self).state(), final(self).state(), now),
            r.drive_id@ == old(self).drive(),
            r.compression == old(self).state().compression,
            r.transfer == old(self).state().transfer,
            r.phase_timings == final(self).state().phase_timings,
            r.phase_timings == (PhaseTimings {
                total_duration: r.phase_timings.total_duration,
                ..old(self).state().phase_timings
            }),
            r.avg_upload_rate_bps == average_rate(
                old(self).state().transfer.wire_bytes_sent as nat,
                r.phase_timings.total_duration as nat,
            ),
            r.peak_upload_rate_bps == old(self).state().peak_speed_bps,
            final(self).drive() == old(self).drive(),
            final(self).started_at() == old(self).started_at(),
    {
        let now = self.now();
        let ghost before = self.inner;
        let avg = self.inner.finish_at(now);
        assert(session_finished(before, self.inner, now));
        let mut summary = SyncSummary::new(self.drive_id.clone());
        summary.phase_timings = self.inner.phase_timings;
        summary.compression = self.inner.compression;
        summary.transfer = self.inner.transfer;
        summary.avg_upload_rate_bps = avg;
        summary.peak_upload_rate_bps = self.inner.peak_speed_bps;
        summary
    }
}

// ---------------------------------------------------------------------
// The sync history table

/// A row of the sync history table: what is kept of a finished session,
/// durations in milliseconds, everything as a signed 64-bit column.
#[derive(Debug, Clone)]
pub struct HistoryRow {
    pub id: String,
    pub drive_id: String,
    pub timestamp: i64,
    pub total_duration_ms: i64,
    pub scan_duration_ms: i64,
    pub diff_duration_ms: i64,
    pub upload_tickets_duration_ms: i64,
    pub payload_transfer_duration_ms: i64,
    pub commit_duration_ms: i64,
    pub materialize_duration_ms: i64,
    pub raw_bytes: i64,
    pub wire_bytes: i64,
    pub dedup_bytes: i64,
    pub avg_speed_bps: i64,
    pub peak_speed_bps: i64,
}

/// Whole milliseconds of a duration in nanoseconds, as a column.
pub open spec fn ms_column(nanos: u64) -> i64 {
    (nanos / 1_000_000) as i64
}

/// A column read back as milliseconds, in nanoseconds (the largest value
/// when that does not fit).
pub open spec fn ms_nanos(ms: i64) -> u64 {
    let m = ms as u64;
    if m * 1_000_000 > u64::MAX {
        u64::MAX
    } else {
        (m * 1_000_000) as u64
    }
}

/// The row stored for a session.
pub open spec fn stored_row(s: SyncSummary) -> HistoryRow {
    HistoryRow {
        id: s.session_id,
        drive_id: s.drive_id,
        timestamp: s.timestamp_epoch_sec as i64,
        total_duration_ms: ms_column(s.phase_timings.total_duration),
        scan_duration_ms: ms_column(s.phase_timings.scan_duration),
        diff_duration_ms: ms_column(s.phase_timings.diff_duration),
        upload_tickets_duration_ms: ms_column(s.phase_timings.upload_tickets_duration),
        payload_transfer_duration_ms: ms_column(s.phase_timings.payload_transfer_duration),
        commit_duration_ms: ms_column(s.phase_timings.commit_duration),
        materialize_duration_ms: ms_column(s.phase_timings.materialize_duration),
        raw_bytes: s.compression.total_raw_bytes as i64,
        wire_bytes: s.transfer.wire_bytes_sent as i64,
        dedup_bytes: s.transfer.deduplicated_bytes_saved as i64,
        avg_speed_bps: s.avg_upload_rate_bps as i64,
        peak_speed_bps: s.peak_upload_rate_bps as i64,
    }
}

/// The session a row describes: the wire bytes stand for both the
/// compressed and the sent bytes, the raw bytes for the logical ones; the
/// counts the table does not keep are zero.
pub open spec fn read_summary(r: HistoryRow) -> SyncSummary {
    SyncSummary {
        session_id: r.id,
        drive_id: r.drive_id,
        timestamp_epoch_sec: r.timestamp as u64,
        phase_timings: PhaseTimings {
            scan_duration: ms_nanos(r.scan_duration_ms),
            diff_duration: ms_nanos(r.diff_duration_ms),
            upload_tickets_duration: ms_nanos(r.upload_tickets_duration_ms),
            payload_transfer_duration: ms_nanos(r.payload_transfer_duration_ms),
            commit_duration: ms_nanos(r.commit_duration_ms),
            materialize_duration: ms_nanos(r.materialize_duration_ms),
            total_duration: ms_nanos(r.total_duration_ms),
        },
        compression: CompressionMetrics {
            total_raw_bytes: r.raw_bytes as u64,
            total_compressed_bytes: r.wire_bytes as u64,
            zstd_count: 0,
            bypassed_count: 0,
        },
        transfer: TransferMetrics {
            logical_bytes: r.raw_bytes as u64,
            deduplicated_bytes_saved: r.dedup_bytes as u64,
            wire_bytes_sent: r.wire_bytes as u64,
            blobs_total: 0,
            blobs_completed: 0,
            blobs_skipped_dedup: 0,
        },
        avg_upload_rate_bps: r.avg_speed_bps as u64,
        peak_upload_rate_bps: r.peak_speed_bps as u64,
    }
}

fn to_column(x: u64) -> (r: i64)
    ensures
        r == x as i64,
{
    x as i64
}

fn from_column(x: i64) -> (r: u64)
    ensures
        r == x as u64,
{
    x as u64
}

fn millis_column(nanos: u64) -> (r: i64)
    ensures
        r == ms_column(nanos),
{
    (nanos / 1_000_000) as i64
}

fn column_nanos(ms: i64) -> (r: u64)
    ensures
        r == ms_nanos(ms),
{
    let m = ms as u64;
    if m <= u64::MAX / 1_000_000 {
        m * 1_000_000
    } else {
        u64::MAX
    }
}

/// The row to store for a finished session.
pub fn history_row(summary: &SyncSummary) -> (r: HistoryRow)
    ensures
        r == stored_row(*summary),
{
    let t = &summary.phase_timings;
    HistoryRow {
        id: summary.session_id.clone(),
        drive_id: summary.drive_id.clone(),
        timestamp: to_column(summary.timestamp_epoch_sec),
        total_duration_ms: millis_column(t.total_duration),
        scan_duration_ms: millis_column(t.scan_duration),
        diff_duration_ms: millis_column(t.diff_duration),
        upload_tickets_duration_ms: millis_column(t.upload_tickets_duration),
        payload_transfer_duration_ms: millis_column(t.payload_transfer_duration),
        commit_duration_ms: millis_column(t.commit_duration),
        materialize_duration_ms: millis_column(t.materialize_duration),
        raw_bytes: to_column(summary.compression.total_raw_bytes),
        wire_bytes: to_column(summary.transfer.wire_bytes_sent),
        dedup_bytes: to_column(summary.transfer.deduplicated_bytes_saved),
        avg_speed_bps: to_column(summary.avg_upload_rate_bps),
        peak_speed_bps: to_column(summary.peak_upload_rate_bps),
    }
}

/// The session a stored row describes.
pub fn summary_from_row(row: HistoryRow) -> (r: SyncSummary)
    ensures
        r == read_summary(row),
{
    SyncSummary {
        timestamp_epoch_sec: from_column(row.timestamp),
        phase_timings: PhaseTimings {
            scan_duration: column_nanos(row.scan_duration_ms),
            diff_duration: column_nanos(row.diff_duration_ms),
            upload_tickets_duration: column_nanos(row.upload_tickets_duration_ms),
            payload_transfer_duration: column_nanos(row.payload_transfer_duration_ms),
            commit_duration: column_nanos(row.commit_duration_ms),
            materialize_duration: column_nanos(row.materialize_duration_ms),
            total_duration: column_nanos(row.total_duration_ms),
        },
        compression: CompressionMetrics {
            total_raw_bytes: from_column(row.raw_bytes),
            total_compressed_bytes: from_column(row.wire_bytes),
            zstd_count: 0,
            bypassed_count: 0,
        },
        transfer: TransferMetrics {
            logical_bytes: from_column(row.raw_bytes),
            deduplicated_bytes_saved: from_column(row.dedup_bytes),
            wire_bytes_sent: from_column(row.wire_bytes),
            blobs_total: 0,
            blobs_completed: 0,
            blobs_skipped_dedup: 0,
        },
        avg_upload_rate_bps: from_column(row.avg_speed_bps),
        peak_upload_rate_bps: from_column(row.peak_speed_bps),
        session_id: row.id,
        drive_id: row.drive_id,
    }
}

/// The totals over the stored sessions of a drive, or of all drives. The
/// overall compression percentage, a floating-point figure, is not kept
/// here; it follows from the raw and wire byte totals.
#[derive(Debug, Clone, PartialEq, Eq, Structural)]
pub struct AggregateStats {
    pub total_syncs: u64,
    pub total_raw_bytes: u64,
    pub total_wire_bytes: u64,
    pub total_dedup_bytes: u64,
    pub avg_upload_rate_bps: u64,
    pub last_sync_timestamp_epoch_sec: Option<u64>,
}

/// A summed column read back: the sum, or 0 over no rows.
pub open spec fn sum_column(x: Option<i64>) -> u64 {
    match x {
        Some(v) => v as u64,
        None => 0,
    }
}

fn sum_or_zero(x: Option<i64>) -> (r: u64)
    ensures
        r == sum_column(x),
{
    match x {
        Some(v) => from_column(v),
        None => 0,
    }
}

/// The totals that the history table's aggregate row gives: the number of
/// sessions, the byte sums (0 over no rows), the average upload rate (its
/// whole part, read by the caller) and the latest timestamp, if any.
pub fn aggregate_from_row(
    count: i64,
    raw_bytes: Option<i64>,
    wire_bytes: Option<i64>,
    dedup_bytes: Option<i64>,
    avg_speed_bps: u64,
    last_timestamp: Option<i64>,
) -> (r: AggregateStats)
    ensures
        r.total_syncs == count as u64,
        r.total_raw_bytes == sum_column(raw_bytes),
        r.total_wire_bytes == sum_column(wire_bytes),
        r.total_dedup_bytes == sum_column(dedup_bytes),
        r.avg_upload_rate_bps == avg_speed_bps,
        r.last_sync_timestamp_epoch_sec == (match last_timestamp {
            Some(t) => Some(t as u64),
            None => None,
        }),
{
    AggregateStats {
        total_syncs: from_column(count),
        total_raw_bytes: sum_or_zero(raw_bytes),
        total_wire_bytes: sum_or_zero(wire_bytes),
        total_dedup_bytes: sum_or_zero(dedup_bytes),
        avg_upload_rate_bps: avg_speed_bps,
        last_sync_timestamp_epoch_sec: match last_timestamp {
            Some(t) => Some(from_column(t)),
            None => None,
        },
    }
}

proof fn lemma_column_round_trip(x: u64)
    ensures
        (x as i64) as u64 == x,
{
    assert((x as i64) as u64 == x) by (bit_vector);
}

/// A duration read back is the one stored, cut to the millisecond.
pub open spec fn same_to_the_ms(read: u64, stored: u64) -> bool {
    read <= stored && stored - read < 1_000_000
}

proof fn lemma_ms_round_trip(nanos: u64)
    ensures
        same_to_the_ms(ms_nanos(ms_column(nanos)), nanos),
{
    let m = nanos / 1_000_000;
    lemma_column_round_trip(m);
    assert(m * 1_000_000 <= nanos && nanos - m * 1_000_000 < 1_000_000) by (nonlinear_arith)
        requires
            m == nanos / 1_000_000,
    ;
}

/// What is stored of a session reads back as it was: identifiers,
/// timestamp, byte counts and speeds exactly, durations cut to the
/// millisecond.
pub proof fn lemma_history_round_trip(s: SyncSummary)
    ensures
        ({
            let b = read_summary(stored_row(s));
            &&& b.session_id == s.session_id
            &&& b.drive_id == s.drive_id
            &&& b.timestamp_epoch_sec == s.timestamp_epoch_sec
            &&& b.compression.total_raw_bytes == s.compression.total_raw_bytes
            &&& b.transfer.wire_bytes_sent == s.transfer.wire_bytes_sent
            &&& b.transfer.deduplicated_bytes_saved == s.transfer.deduplicated_bytes_saved
            &&& b.avg_upload_rate_bps == s.avg_upload_rate_bps
            &&& b.peak_upload_rate_bps == s.peak_upload_rate_bps
            &&& same_to_the_ms(b.phase_timings.total_duration, s.phase_timings.total_duration)
            &&& same_to_the_ms(b.phase_timings.scan_duration, s.phase_timings.scan_duration)
            &&& same_to_the_ms(b.phase_timings.diff_duration, s.phase_timings.diff_duration)
            &&& same_to_the_ms(b.phase_timings.upload_tickets_duration, s.phase_timings.upload_tickets_duration)
            &&& same_to_the_ms(
                b.phase_timings.payload_transfer_duration,
                s.phase_timings.payload_transfer_duration,
            )
            &&& same_to_the_ms(b.phase_timings.commit_duration, s.phase_timings.commit_duration)
            &&& same_to_the_ms(b.phase_timings.materialize_duration, s.phase_timings.materialize_duration)
        }),
{
    lemma_column_round_trip(s.timestamp_epoch_sec);
    lemma_column_round_trip(s.compression.total_raw_bytes);
    lemma_column_round_trip(s.transfer.wire_bytes_sent);
    lemma_column_round_trip(s.transfer.deduplicated_bytes_saved);
    lemma_column_round_trip(s.avg_upload_rate_bps);
    lemma_column_round_trip(s.peak_upload_rate_bps);
    lemma_ms_round_trip(s.phase_timings.total_duration);
    lemma_ms_round_trip(s.phase_timings.scan_duration);
    lemma_ms_round_trip(s.phase_timings.diff_duration);
    lemma_ms_round_trip(s.phase_timings.upload_tickets_duration);
    lemma_ms_round_trip(s.phase_timings.payload_transfer_duration);
    lemma_ms_round_trip(s.phase_timings.commit_duration);
    lemma_ms_round_trip(s.phase_timings.materialize_duration);
}

} // verus!
