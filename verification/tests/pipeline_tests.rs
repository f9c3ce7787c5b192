use engagement::fire_assessment::{FireAssessmentMessage, fire_assessment_stage_seeded};
use engagement::fire_unit::{FireUnitMessage, fire_unit_stage};
use engagement::iff::{IFFMessage, iff_stage};
use engagement::radar::{RadarMessage, SourceLine, source_stage};
use engagement::simulation::{run_pipeline, run_pipeline_seeded};
use engagement::stats::{Statistics, aggregate};

fn twenty_lines() -> Vec<SourceLine> {
    // Ten hostile readings (a lone odd value) and ten friendly ones (a
    // lone even value), all well formed.
    let mut lines = Vec::new();
    for i in 0..20 {
        if i % 2 == 0 {
            lines.push(SourceLine::Text(String::from("1")));
        } else {
            lines.push(SourceLine::Text(String::from("10")));
        }
    }
    lines
}

#[test]
fn integration_test() {
    let lines = twenty_lines();
    let samples = vec![0u64; 20];
    let statistics = run_pipeline_seeded(&lines, &samples, u64::MAX / 5 * 4);
    assert_eq!(10, statistics.friendlies_detected);
    assert_eq!(10, statistics.hostile_detected);
    assert_eq!(20, statistics.scans);
    assert_eq!(0, statistics.scan_errors);
    assert_eq!(10, statistics.missiles_fired);
    assert_eq!(
        statistics.missiles_fired,
        statistics.missiles_hit + statistics.missiles_missed
    );
}

#[test]
fn seeded_run_is_deterministic() {
    let lines = twenty_lines();
    let samples: Vec<u64> = (0..20u64).map(|i| i * 1_000_003).collect();
    let a = run_pipeline_seeded(&lines, &samples, 7_000_000);
    let b = run_pipeline_seeded(&lines, &samples, 7_000_000);
    assert_eq!(a.scans, b.scans);
    assert_eq!(a.scan_errors, b.scan_errors);
    assert_eq!(a.friendlies_detected, b.friendlies_detected);
    assert_eq!(a.hostile_detected, b.hostile_detected);
    assert_eq!(a.missiles_fired, b.missiles_fired);
    assert_eq!(a.missiles_hit, b.missiles_hit);
    assert_eq!(a.missiles_missed, b.missiles_missed);
}

#[test]
fn seeded_run_splits_hits_by_threshold() {
    // Three hostiles; samples 0, 5, 9 against threshold 6: two hits,
    // one miss.
    let lines = vec![
        SourceLine::Text(String::from("1")),
        SourceLine::Text(String::from("11;1")),
        SourceLine::Text(String::from("101")),
    ];
    let samples = vec![0u64, 5, 9];
    let statistics = run_pipeline_seeded(&lines, &samples, 6);
    assert_eq!(3, statistics.missiles_fired);
    assert_eq!(2, statistics.missiles_hit);
    assert_eq!(1, statistics.missiles_missed);
}

#[test]
fn random_run_keeps_the_counting_laws() {
    let mut lines = twenty_lines();
    lines.push(SourceLine::Text(String::from("not binary")));
    lines.push(SourceLine::ReadFailure(String::from("lost the disk")));
    let statistics = run_pipeline(&lines, u64::MAX / 5 * 4);
    assert_eq!(20, statistics.scans);
    assert_eq!(2, statistics.scan_errors);
    assert_eq!(
        statistics.scans,
        statistics.friendlies_detected + statistics.hostile_detected
    );
    assert_eq!(statistics.hostile_detected, statistics.missiles_fired);
    assert_eq!(
        statistics.missiles_fired,
        statistics.missiles_hit + statistics.missiles_missed
    );
}

#[test]
fn stage_streams_close_with_one_sentinel_each() {
    let lines = vec![
        SourceLine::Text(String::from("1")),
        SourceLine::Text(String::from("10")),
        SourceLine::Text(String::from("oops")),
    ];
    let radar = source_stage(&lines);
    let iff = iff_stage(&radar);
    let fireunit = fire_unit_stage(&iff);
    let samples = vec![0u64; 3];
    let assessment = fire_assessment_stage_seeded(&fireunit, &samples, u64::MAX);

    let ends = radar
        .iter()
        .filter(|m| matches!(m, RadarMessage::EndOfData))
        .count();
    assert_eq!(1, ends);
    assert!(matches!(radar.last(), Some(RadarMessage::EndOfData)));

    let closes = iff
        .iter()
        .filter(|m| matches!(m, IFFMessage::IFFShutDown))
        .count();
    assert_eq!(1, closes);
    assert!(matches!(iff.last(), Some(IFFMessage::IFFShutDown)));

    let closes = fireunit
        .iter()
        .filter(|m| matches!(m, FireUnitMessage::FireUnitShutdown))
        .count();
    assert_eq!(1, closes);
    assert!(matches!(fireunit.last(), Some(FireUnitMessage::FireUnitShutdown)));

    let closes = assessment
        .iter()
        .filter(|m| matches!(m, FireAssessmentMessage::Shutdown()))
        .count();
    assert_eq!(1, closes);
    assert!(matches!(assessment.last(), Some(FireAssessmentMessage::Shutdown())));
}

#[test]
fn aggregate_counts_each_kind() {
    let lines = vec![
        SourceLine::Text(String::from("1;1")),
        SourceLine::Text(String::from("0;0")),
        SourceLine::Text(String::from("2")),
        SourceLine::ReadFailure(String::from("gone")),
    ];
    let radar = source_stage(&lines);
    let iff = iff_stage(&radar);
    let fireunit = fire_unit_stage(&iff);
    let samples = vec![u64::MAX; 4];
    let assessment = fire_assessment_stage_seeded(&fireunit, &samples, 1);
    let statistics = aggregate(&radar, &iff, &fireunit, &assessment);
    assert_eq!(2, statistics.scans);
    assert_eq!(2, statistics.scan_errors);
    assert_eq!(1, statistics.hostile_detected);
    assert_eq!(1, statistics.friendlies_detected);
    assert_eq!(1, statistics.missiles_fired);
    assert_eq!(0, statistics.missiles_hit);
    assert_eq!(1, statistics.missiles_missed);
}

#[test]
fn fresh_statistics_are_all_zero() {
    let s = Statistics::new();
    assert_eq!(0, s.scans);
    assert_eq!(0, s.scan_errors);
    assert_eq!(0, s.friendlies_detected);
    assert_eq!(0, s.hostile_detected);
    assert_eq!(0, s.missiles_fired);
    assert_eq!(0, s.missiles_hit);
    assert_eq!(0, s.missiles_missed);
    let d = Statistics::default();
    assert_eq!(0, d.scans);
    assert_eq!(0, d.missiles_missed);
}

#[test]
fn record_functions_move_only_their_counter() {
    let mut s = Statistics::new();
    s.record_radar(&RadarMessage::Received(vec![1]));
    s.record_radar(&RadarMessage::ScanIOError(String::from("gone")));
    s.record_radar(&RadarMessage::EndOfData);
    assert_eq!(1, s.scans);
    assert_eq!(1, s.scan_errors);
    s.record_iff(&IFFMessage::HostileDetected(RadarMessage::Received(vec![1])));
    s.record_iff(&IFFMessage::IFFShutDown);
    assert_eq!(1, s.hostile_detected);
    assert_eq!(0, s.friendlies_detected);
    s.record_fireunit(&FireUnitMessage::FireUnitShutdown);
    assert_eq!(0, s.missiles_fired);
    s.record_fire_assessment(&FireAssessmentMessage::Shutdown());
    assert_eq!(0, s.missiles_hit);
    assert_eq!(0, s.missiles_missed);
    assert_eq!(1, s.scans);
}
