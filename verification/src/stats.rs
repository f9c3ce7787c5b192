//! Aggregator: tallies the events of all four stage channels into one
//! immutable snapshot of seven counters. Each counter moves only when
//! an event of its kind arrives, and never moves otherwise; sentinels
//! are observed but not counted.

use vstd::prelude::*;

use crate::count::{count_matching, lemma_count_bounds};
use crate::fire_assessment::{FireAssessmentMessage, hit_p, miss_p};
use crate::fire_unit::{FireUnitMessage, fired_p};
use crate::iff::{IFFMessage, IffModel, friendly_p, hostile_p};
use crate::radar::{RadarMessage, RadarModel, received_p, scan_error_p};

verus! {

/// The final tally of a run.
#[derive(Clone, Copy, Debug)]
pub struct Statistics {
    pub scans: u64,
    pub scan_errors: u64,
    pub friendlies_detected: u64,
    pub hostile_detected: u64,
    pub missiles_fired: u64,
    pub missiles_hit: u64,
    pub missiles_missed: u64,
}

/// The mathematical shape of a snapshot.
pub struct SnapshotModel {
    pub scans: int,
    pub scan_errors: int,
    pub friendlies_detected: int,
    pub hostile_detected: int,
    pub missiles_fired: int,
    pub missiles_hit: int,
    pub missiles_missed: int,
}

impl View for Statistics {
    type V = SnapshotModel;

    open spec fn view(&self) -> SnapshotModel {
        SnapshotModel {
            scans: self.scans as int,
            scan_errors: self.scan_errors as int,
            friendlies_detected: self.friendlies_detected as int,
            hostile_detected: self.hostile_detected as int,
            missiles_fired: self.missiles_fired as int,
            missiles_hit: self.missiles_hit as int,
            missiles_missed: self.missiles_missed as int,
        }
    }
}

impl Statistics {
    /// A fresh tally: every counter at zero.
    pub fn new() -> (s: Self)
        ensures
            s.scans == 0,
            s.scan_errors == 0,
            s.friendlies_detected == 0,
            s.hostile_detected == 0,
            s.missiles_fired == 0,
            s.missiles_hit == 0,
            s.missiles_missed == 0,
    {
        Statistics {
            scans: 0,
            scan_errors: 0,
            friendlies_detected: 0,
            hostile_detected: 0,
            missiles_fired: 0,
            missiles_hit: 0,
            missiles_missed: 0,
        }
    }

    /// Counts one radar event: a reading moves the scan counter, a
    /// fault the error counter, the sentinel neither; nothing else
    /// moves.
    pub fn record_radar(&mut self, msg: &RadarMessage)
        requires
            msg@ is Received ==> old(self).scans < u64::MAX,
            (msg@ is ScanIntError || msg@ is ScanIOError) ==> old(self).scan_errors < u64::MAX,
        ensures
            final(self).scans == old(self).scans + (if msg@ is Received {
                1int
            } else {
                0int
            }),
            final(self).scan_errors == old(self).scan_errors + (if msg@ is ScanIntError
                || msg@ is ScanIOError {
                1int
            } else {
                0int
            }),
            final(self).friendlies_detected == old(self).friendlies_detected,
            final(self).hostile_detected == old(self).hostile_detected,
            final(self).missiles_fired == old(self).missiles_fired,
            final(self).missiles_hit == old(self).missiles_hit,
            final(self).missiles_missed == old(self).missiles_missed,
    {
        match msg {
            RadarMessage::Received(_) => {
                self.scans = self.scans + 1;
            },
            RadarMessage::ScanIOError(_) => {
                self.scan_errors = self.scan_errors + 1;
            },
            RadarMessage::ScanIntError(_) => {
                self.scan_errors = self.scan_errors + 1;
            },
            RadarMessage::EndOfData => {},
        }
    }

    /// Counts one classifier event; the sentinel is left uncounted.
    pub fn record_iff(&mut self, msg: &IFFMessage)
        requires
            msg@ is HostileDetected ==> old(self).hostile_detected < u64::MAX,
            msg@ is FriendlyDetected ==> old(self).friendlies_detected < u64::MAX,
        ensures
            final(self).hostile_detected == old(self).hostile_detected + (
            if msg@ is HostileDetected {
                1int
            } else {
                0int
            }),
            final(self).friendlies_detected == old(self).friendlies_detected + (
            if msg@ is FriendlyDetected {
                1int
            } else {
                0int
            }),
            final(self).scans == old(self).scans,
            final(self).scan_errors == old(self).scan_errors,
            final(self).missiles_fired == old(self).missiles_fired,
            final(self).missiles_hit == old(self).missiles_hit,
            final(self).missiles_missed == old(self).missiles_missed,
    {
        match msg {
            IFFMessage::HostileDetected(_) => {
                self.hostile_detected = self.hostile_detected + 1;
            },
            IFFMessage::FriendlyDetected(_) => {
                self.friendlies_detected = self.friendlies_detected + 1;
            },
            IFFMessage::IFFShutDown => {},
        }
    }

    /// Counts one actuator event; the sentinel is left uncounted.
    pub fn record_fireunit(&mut self, msg: &FireUnitMessage)
        requires
            msg@ is MissileFired ==> old(self).missiles_fired < u64::MAX,
        ensures
            final(self).missiles_fired == old(self).missiles_fired + (if msg@ is MissileFired {
                1int
            } else {
                0int
            }),
            final(self).scans == old(self).scans,
            final(self).scan_errors == old(self).scan_errors,
            final(self).friendlies_detected == old(self).friendlies_detected,
            final(self).hostile_detected == old(self).hostile_detected,
            final(self).missiles_hit == old(self).missiles_hit,
            final(self).missiles_missed == old(self).missiles_missed,
    {
        match msg {
            FireUnitMessage::MissileFired(_) => {
                self.missiles_fired = self.missiles_fired + 1;
            },
            FireUnitMessage::FireUnitShutdown => {},
        }
    }

    /// Counts one assessment event; the sentinel is left uncounted.
    pub fn record_fire_assessment(&mut self, msg: &FireAssessmentMessage)
        requires
            msg@ is Hit ==> old(self).missiles_hit < u64::MAX,
            msg@ is Miss ==> old(self).missiles_missed < u64::MAX,
        ensures
            final(self).missiles_hit == old(self).missiles_hit + (if msg@ is Hit {
                1int
            } else {
                0int
            }),
            final(self).missiles_missed == old(self).missiles_missed + (if msg@ is Miss {
                1int
            } else {
                0int
            }),
            final(self).scans == old(self).scans,
            final(self).scan_errors == old(self).scan_errors,
            final(self).friendlies_detected == old(self).friendlies_detected,
            final(self).hostile_detected == old(self).hostile_detected,
            final(self).missiles_fired == old(self).missiles_fired,
    {
        match msg {
            FireAssessmentMessage::Hit(_) => {
                self.missiles_hit = self.missiles_hit + 1;
            },
            FireAssessmentMessage::Miss(_) => {
                self.missiles_missed = self.missiles_missed + 1;
            },
            FireAssessmentMessage::Shutdown() => {},
        }
    }
}

impl Default for Statistics {
    /// The default tally is the fresh one: every counter at zero.
    fn default() -> (s: Self)
        ensures
            s.scans == 0,
            s.scan_errors == 0,
            s.friendlies_detected == 0,
            s.hostile_detected == 0,
            s.missiles_fired == 0,
            s.missiles_hit == 0,
            s.missiles_missed == 0,
    {
        Statistics::new()
    }
}

/// Tallies the four whole stage streams of a finished run: each counter
/// of the snapshot equals the number of events of its kind on its
/// channel.
pub fn aggregate(
    radar: &Vec<RadarMessage>,
    iff: &Vec<IFFMessage>,
    fireunit: &Vec<FireUnitMessage>,
    assessment: &Vec<FireAssessmentMessage>,
) -> (stats: Statistics)
    ensures
        stats.scans == count_matching(radar.deep_view(), received_p()),
        stats.scan_errors == count_matching(radar.deep_view(), scan_error_p()),
        stats.friendlies_detected == count_matching(iff.deep_view(), friendly_p()),
        stats.hostile_detected == count_matching(iff.deep_view(), hostile_p()),
        stats.missiles_fired == count_matching(fireunit.deep_view(), fired_p()),
        stats.missiles_hit == count_matching(assessment.deep_view(), hit_p()),
        stats.missiles_missed == count_matching(assessment.deep_view(), miss_p()),
{
    let mut stats = Statistics::new();
    let ghost rdv = radar.deep_view();
    let ghost idv = iff.deep_view();
    let ghost fdv = fireunit.deep_view();
    let ghost adv = assessment.deep_view();
    proof {
        lemma_count_bounds(rdv, received_p());
        lemma_count_bounds(rdv, scan_error_p());
        lemma_count_bounds(idv, friendly_p());
        lemma_count_bounds(idv, hostile_p());
        lemma_count_bounds(fdv, fired_p());
        lemma_count_bounds(adv, hit_p());
        lemma_count_bounds(adv, miss_p());
        assert(rdv.skip(0) =~= rdv);
        assert(idv.skip(0) =~= idv);
        assert(fdv.skip(0) =~= fdv);
        assert(adv.skip(0) =~= adv);
    }
    let n = radar.len();
    let mut i: usize = 0;
    while i < n
        invariant
            i <= n,
            n == rdv.len(),
            rdv == radar.deep_view(),
            radar@.len() == n,
            stats.scans + count_matching(rdv.skip(i as int), received_p()) == count_matching(
                rdv,
                received_p(),
            ),
            stats.scan_errors + count_matching(rdv.skip(i as int), scan_error_p())
                == count_matching(rdv, scan_error_p()),
            count_matching(rdv, received_p()) <= n,
            count_matching(rdv, scan_error_p()) <= n,
            stats.friendlies_detected == 0,
            stats.hostile_detected == 0,
            stats.missiles_fired == 0,
            stats.missiles_hit == 0,
            stats.missiles_missed == 0,
        decreases n - i,
    {
        let ghost rest = rdv.skip(i as int);
        proof {
            assert(rest.first() == rdv[i as int]);
            assert(rest.drop_first() =~= rdv.skip(i as int + 1));
            lemma_count_bounds(rest.drop_first(), received_p());
            lemma_count_bounds(rest.drop_first(), scan_error_p());
        }
        stats.record_radar(&radar[i]);
        i = i + 1;
    }
    proof {
        assert(rdv.skip(n as int) =~= Seq::<RadarModel>::empty());
    }
    let n = iff.len();
    let mut i: usize = 0;
    while i < n
        invariant
            i <= n,
            n == idv.len(),
            idv == iff.deep_view(),
            iff@.len() == n,
            stats.friendlies_detected + count_matching(idv.skip(i as int), friendly_p())
                == count_matching(idv, friendly_p()),
            stats.hostile_detected + count_matching(idv.skip(i as int), hostile_p())
                == count_matching(idv, hostile_p()),
            count_matching(idv, friendly_p()) <= n,
            count_matching(idv, hostile_p()) <= n,
            stats.scans == count_matching(rdv, received_p()),
            stats.scan_errors == count_matching(rdv, scan_error_p()),
            stats.missiles_fired == 0,
            stats.missiles_hit == 0,
            stats.missiles_missed == 0,
        decreases n - i,
    {
        let ghost rest = idv.skip(i as int);
        proof {
            assert(rest.first() == idv[i as int]);
            assert(rest.drop_first() =~= idv.skip(i as int + 1));
            lemma_count_bounds(rest.drop_first(), friendly_p());
            lemma_count_bounds(rest.drop_first(), hostile_p());
        }
        stats.record_iff(&iff[i]);
        i = i + 1;
    }
    proof {
        assert(idv.skip(n as int) =~= Seq::<IffModel>::empty());
    }
    let n = fireunit.len();
    let mut i: usize = 0;
    while i < n
        invariant
            i <= n,
            n == fdv.len(),
            fdv == fireunit.deep_view(),
            fireunit@.len() == n,
            stats.missiles_fired + count_matching(fdv.skip(i as int), fired_p())
                == count_matching(fdv, fired_p()),
            count_matching(fdv, fired_p()) <= n,
            stats.scans == count_matching(rdv, received_p()),
            stats.scan_errors == count_matching(rdv, scan_error_p()),
            stats.friendlies_detected == count_matching(idv, friendly_p()),
            stats.hostile_detected == count_matching(idv, hostile_p()),
            stats.missiles_hit == 0,
            stats.missiles_missed == 0,
        decreases n - i,
    {
        let ghost rest = fdv.skip(i as int);
        proof {
            assert(rest.first() == fdv[i as int]);
            assert(rest.drop_first() =~= fdv.skip(i as int + 1));
            lemma_count_bounds(rest.drop_first(), fired_p());
        }
        stats.record_fireunit(&fireunit[i]);
        i = i + 1;
    }
    proof {
        assert(fdv.skip(n as int) =~= Seq::<crate::fire_unit::FuModel>::empty());
    }
    let n = assessment.len();
    let mut i: usize = 0;
    while i < n
        invariant
            i <= n,
            n == adv.len(),
            adv == assessment.deep_view(),
            assessment@.len() == n,
            stats.missiles_hit + count_matching(adv.skip(i as int), hit_p()) == count_matching(
                adv,
                hit_p(),
            ),
            stats.missiles_missed + count_matching(adv.skip(i as int), miss_p())
                == count_matching(adv, miss_p()),
            count_matching(adv, hit_p()) <= n,
            count_matching(adv, miss_p()) <= n,
            stats.scans == count_matching(rdv, received_p()),
            stats.scan_errors == count_matching(rdv, scan_error_p()),
            stats.friendlies_detected == count_matching(idv, friendly_p()),
            stats.hostile_detected == count_matching(idv, hostile_p()),
            stats.missiles_fired == count_matching(fdv, fired_p()),
        decreases n - i,
    {
        let ghost rest = adv.skip(i as int);
        proof {
            assert(rest.first() == adv[i as int]);
            assert(rest.drop_first() =~= adv.skip(i as int + 1));
            lemma_count_bounds(rest.drop_first(), hit_p());
            lemma_count_bounds(rest.drop_first(), miss_p());
        }
        stats.record_fire_assessment(&assessment[i]);
        i = i + 1;
    }
    proof {
        assert(adv.skip(n as int) =~= Seq::<crate::fire_assessment::FaModel>::empty());
    }
    stats
}

} // verus!
