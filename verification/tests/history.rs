//! Frame times and the history of what frames report.

use std::time::Duration;

use flayout_wgpu::coords::coord_from_bits;
use flayout_wgpu::perf::{FrameRate, FrameStats, MetricHistory, RenderStatsHistory};
use flayout_wgpu::renderer::stats::RenderDebugStats;

fn k(value: f32) -> i32 {
    coord_from_bits((value + 0.0).to_bits())
}

fn nanos(duration: Duration) -> u64 {
    duration.as_nanos() as u64
}

#[test]
fn frame_stats_reports_positive_fps_after_ticks() {
    let mut stats = FrameStats::new();
    assert_eq!(stats.fps(), None);
    stats.record_frame(nanos(Duration::from_millis(16)));
    stats.record_frame(nanos(Duration::from_millis(16)));

    let rate = stats.fps().expect("rate");
    assert!(rate.frames as f64 * 1.0e9 / rate.nanos as f64 > 0.0);
    assert_eq!(
        rate,
        FrameRate {
            frames: 2,
            nanos: 32_000_000,
        }
    );
    assert_eq!(stats.frame_time_ms(), (16, 0));
    assert!(stats.frame_time_ms().0 > 0);
}

#[test]
fn frame_times_of_no_length_have_no_rate() {
    let mut stats = FrameStats::default();
    stats.record_frame(0);
    assert_eq!(stats.fps(), None);
    stats.record_frame(1_500_001);
    assert_eq!(stats.frame_time_ms(), (1, 500_001));
}

#[test]
fn rates_need_a_mean_above_the_least_step() {
    let mut stats = FrameStats::new();
    stats.record_frame(1);
    for _ in 0..8 {
        stats.record_frame(0);
    }
    assert_eq!(stats.fps(), None);
    stats.record_frame(1);
    assert_eq!(
        stats.fps(),
        Some(FrameRate {
            frames: 10,
            nanos: 2,
        })
    );
}

#[test]
fn frame_stats_forget_old_frames() {
    let mut stats = FrameStats::new();
    stats.record_frame(1_000_000);
    for _ in 0..120 {
        stats.record_frame(2);
    }
    assert_eq!(
        stats.fps(),
        Some(FrameRate {
            frames: 120,
            nanos: 240,
        })
    );
}

#[test]
fn metric_history_slides() {
    let mut history = MetricHistory::new(3);
    assert_eq!(history.latest(), 0);
    assert_eq!(history.max_value(), 0);
    for value in [9, 2, 5, 4] {
        history.push(value);
    }
    assert_eq!(history.samples(), vec![2, 5, 4]);
    assert_eq!(history.max_value(), 5);
    assert_eq!(history.latest(), 4);

    let mut roomless = MetricHistory::new(0);
    roomless.push(1);
    roomless.push(2);
    assert_eq!(roomless.samples(), vec![1, 2]);
}

fn report(vertices: usize, misses: usize, bytes: usize, pending: usize) -> RenderDebugStats {
    RenderDebugStats::new(
        10,
        4,
        3,
        2,
        vertices,
        4,
        5,
        1,
        misses,
        6,
        2,
        7,
        64,
        bytes,
        0,
        2,
        5,
        9,
        pending,
        16,
        3,
        None,
        0,
        0,
        None,
        false,
        8,
        128,
        true,
        k(10.0),
        k(1.5),
    )
}

#[test]
fn render_stats_history_records_latest_renderer_samples() {
    let mut history = RenderStatsHistory::new();
    history.record(&report(120, 4, 2_048, 12));
    history.record(&report(80, 1, 1_024, 4));

    assert_eq!(history.vertices().latest(), 80);
    assert_eq!(history.vertices().max_value(), 120);
    assert_eq!(history.tile_misses().latest(), 1);
    assert_eq!(history.cache_bytes().latest(), 1_024);
    assert_eq!(history.pending_entries().latest(), 4);
    assert_eq!(history.vertices().samples().len(), 2);
}
