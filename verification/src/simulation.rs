//! The pipeline as a whole: the four stages composed in dependency
//! order with the aggregator tapping every stream, and the laws that a
//! finished run obeys — every reading classified once, every hostile
//! fired at once, every firing judged once, and exactly one closing
//! sentinel per stage.

use vstd::prelude::*;

use crate::count::{count_matching, lemma_count_bounds, lemma_count_last_not,
    lemma_count_single_at_end};
use crate::fire_assessment::{fa_model, fa_shutdown_p, fire_assessment_stage_seeded, hit_p,
    lemma_every_missile_assessed, lemma_fa_wf, miss_p};
use crate::fire_unit::{fire_unit_stage, fired_p, fu_model, fu_shutdown_p,
    lemma_every_hostile_fired, lemma_fu_wf, n_fired};
use crate::iff::{friendly_p, hostile_p, iff_model, iff_shutdown_p, iff_stage,
    lemma_every_reading_classified, lemma_iff_wf};
use crate::radar::{LineModel, SourceLine, end_p, lemma_source_wf, received_p, scan_error_p,
    source_model, source_stage};
use crate::stats::{SnapshotModel, Statistics, aggregate};

verus! {

/// Why a run could not start at all.
#[derive(Debug)]
pub enum SimulationError {
    IOError(String),
}

/// The snapshot a run over `lines` yields when the firings consume
/// `samples` in order against `threshold`.
pub open spec fn run_model(lines: Seq<LineModel>, samples: Seq<u64>, threshold: u64)
    -> SnapshotModel {
    let rs = source_model(lines);
    let is = iff_model(rs);
    let fs = fu_model(is);
    let out = fa_model(fs, samples, threshold);
    SnapshotModel {
        scans: count_matching(rs, received_p()),
        scan_errors: count_matching(rs, scan_error_p()),
        friendlies_detected: count_matching(is, friendly_p()),
        hostile_detected: count_matching(is, hostile_p()),
        missiles_fired: count_matching(fs, fired_p()),
        missiles_hit: count_matching(out, hit_p()),
        missiles_missed: count_matching(out, miss_p()),
    }
}

/// A run fires at most one missile per input line.
pub proof fn lemma_fired_at_most_lines(lines: Seq<LineModel>)
    ensures
        0 <= n_fired(fu_model(iff_model(source_model(lines)))) <= lines.len(),
{
    let rs = source_model(lines);
    let is = iff_model(rs);
    let fs = fu_model(is);
    lemma_source_wf(lines);
    lemma_iff_wf(rs);
    lemma_every_reading_classified(rs);
    lemma_every_hostile_fired(is);
    lemma_count_bounds(is, friendly_p());
    lemma_count_bounds(fs, fired_p());
    assert(!(rs.last() is Received));
    assert(!received_p()(rs.last()));
    lemma_count_last_not(rs, received_p());
}

/// One whole run with the samples given: the source decodes every line
/// in order, the classifier, actuator and assessment streams follow,
/// and the snapshot counts each stream. The result is a pure function
/// of the lines, the samples and the threshold.
pub fn run_pipeline_seeded(lines: &Vec<SourceLine>, samples: &Vec<u64>, threshold: u64) -> (stats:
    Statistics)
    requires
        samples@.len() >= lines@.len(),
    ensures
        stats@ == run_model(lines.deep_view(), samples@, threshold),
{
    let radar = source_stage(lines);
    let iff = iff_stage(&radar);
    let fireunit = fire_unit_stage(&iff);
    proof {
        assert(lines.deep_view().len() == lines@.len());
        lemma_fired_at_most_lines(lines.deep_view());
    }
    let assessment = fire_assessment_stage_seeded(&fireunit, samples, threshold);
    let stats = aggregate(&radar, &iff, &fireunit, &assessment);
    stats
}

/// One whole run with freshly drawn samples. The five counters that do
/// not depend on the draws are pinned exactly; hits and misses may fall
/// either way, but together they match the missiles fired.
pub fn run_pipeline(lines: &Vec<SourceLine>, threshold: u64) -> (stats: Statistics)
    ensures
        exists|samples: Seq<u64>| stats@ == run_model(lines.deep_view(), samples, threshold),
        stats.scans == count_matching(source_model(lines.deep_view()), received_p()),
        stats.scan_errors == count_matching(source_model(lines.deep_view()), scan_error_p()),
        stats.friendlies_detected == count_matching(
            iff_model(source_model(lines.deep_view())),
            friendly_p(),
        ),
        stats.hostile_detected == count_matching(
            iff_model(source_model(lines.deep_view())),
            hostile_p(),
        ),
        stats.missiles_fired == n_fired(fu_model(iff_model(source_model(lines.deep_view())))),
        stats.missiles_hit + stats.missiles_missed == stats.missiles_fired,
{
    let n = lines.len();
    let mut samples: Vec<u64> = Vec::new();
    let mut i: usize = 0;
    while i < n
        invariant
            i <= n,
            samples@.len() == i,
        decreases n - i,
    {
        samples.push(crate::fire_assessment::draw_sample());
        i = i + 1;
    }
    let stats = run_pipeline_seeded(lines, &samples, threshold);
    proof {
        let ldv = lines.deep_view();
        assert(stats@ == run_model(ldv, samples@, threshold));
        let rs = source_model(ldv);
        let is = iff_model(rs);
        let fs = fu_model(is);
        lemma_source_wf(ldv);
        lemma_iff_wf(rs);
        lemma_fu_wf(is);
        lemma_every_missile_assessed(fs, samples@, threshold);
    }
    stats
}

/// The counting laws of every finished run, read off its snapshot:
/// every reading is classified exactly once, every hostile
/// classification triggers exactly one firing, and every firing is
/// judged exactly once — whatever the input and whatever the samples.
pub proof fn lemma_snapshot_laws(lines: Seq<LineModel>, samples: Seq<u64>, threshold: u64)
    ensures
        run_model(lines, samples, threshold).hostile_detected + run_model(
            lines,
            samples,
            threshold,
        ).friendlies_detected == run_model(lines, samples, threshold).scans,
        run_model(lines, samples, threshold).missiles_fired == run_model(
            lines,
            samples,
            threshold,
        ).hostile_detected,
        run_model(lines, samples, threshold).missiles_hit + run_model(
            lines,
            samples,
            threshold,
        ).missiles_missed == run_model(lines, samples, threshold).missiles_fired,
{
    let rs = source_model(lines);
    let is = iff_model(rs);
    let fs = fu_model(is);
    lemma_source_wf(lines);
    lemma_iff_wf(rs);
    lemma_fu_wf(is);
    lemma_every_reading_classified(rs);
    lemma_every_hostile_fired(is);
    lemma_every_missile_assessed(fs, samples, threshold);
}

/// A finished run closes each stage exactly once: one end-of-data
/// sentinel on the radar channel and one shutdown sentinel on each of
/// the three downstream channels, each the last event of its stream.
pub proof fn lemma_single_sentinels(lines: Seq<LineModel>, samples: Seq<u64>, threshold: u64)
    ensures
        count_matching(source_model(lines), end_p()) == 1,
        count_matching(iff_model(source_model(lines)), iff_shutdown_p()) == 1,
        count_matching(fu_model(iff_model(source_model(lines))), fu_shutdown_p()) == 1,
        count_matching(
            fa_model(fu_model(iff_model(source_model(lines))), samples, threshold),
            fa_shutdown_p(),
        ) == 1,
{
    let rs = source_model(lines);
    let is = iff_model(rs);
    let fs = fu_model(is);
    let out = fa_model(fs, samples, threshold);
    lemma_source_wf(lines);
    lemma_iff_wf(rs);
    lemma_fu_wf(is);
    lemma_fa_wf(fs, samples, threshold);
    assert(end_p()(rs.last()));
    lemma_count_single_at_end(rs, end_p());
    assert(iff_shutdown_p()(is.last()));
    lemma_count_single_at_end(is, iff_shutdown_p());
    assert(fu_shutdown_p()(fs.last()));
    lemma_count_single_at_end(fs, fu_shutdown_p());
    assert(fa_shutdown_p()(out.last()));
    lemma_count_single_at_end(out, fa_shutdown_p());
}

/// The snapshot of a run is determined by its input alone, except for
/// the hit/miss split, which the samples decide; even that split always
/// sums to the missiles fired.
pub proof fn lemma_seed_independent(
    lines: Seq<LineModel>,
    s1: Seq<u64>,
    s2: Seq<u64>,
    threshold: u64,
)
    ensures
        run_model(lines, s1, threshold).scans == run_model(lines, s2, threshold).scans,
        run_model(lines, s1, threshold).scan_errors == run_model(lines, s2, threshold).scan_errors,
        run_model(lines, s1, threshold).friendlies_detected == run_model(
            lines,
            s2,
            threshold,
        ).friendlies_detected,
        run_model(lines, s1, threshold).hostile_detected == run_model(
            lines,
            s2,
            threshold,
        ).hostile_detected,
        run_model(lines, s1, threshold).missiles_fired == run_model(
            lines,
            s2,
            threshold,
        ).missiles_fired,
        run_model(lines, s1, threshold).missiles_hit + run_model(lines, s1, threshold).missiles_missed
            == run_model(lines, s2, threshold).missiles_hit + run_model(
            lines,
            s2,
            threshold,
        ).missiles_missed,
{
    let rs = source_model(lines);
    let is = iff_model(rs);
    let fs = fu_model(is);
    lemma_source_wf(lines);
    lemma_iff_wf(rs);
    lemma_fu_wf(is);
    lemma_every_missile_assessed(fs, s1, threshold);
    lemma_every_missile_assessed(fs, s2, threshold);
}

} // verus!
