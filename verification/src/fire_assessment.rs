//! Outcome stage: draws one random sample per fired missile and calls
//! it a hit when the sample falls below the configured threshold, a
//! miss otherwise. The threshold is a fraction of the machine-word
//! range, so a threshold of four fifths of that range means a hit
//! probability of about four fifths.

use vstd::prelude::*;

use crate::count::{count_matching, lemma_count_bounds};
use crate::fire_unit::{FireUnitMessage, FuModel, fired_p, n_fired, wf_fu};

verus! {

/// One event on the assessment channel, carrying the firing it judges.
#[derive(Debug)]
pub enum FireAssessmentMessage {
    Hit(FireUnitMessage),
    Miss(FireUnitMessage),
    Shutdown(),
}

/// The mathematical shape of an assessment event.
pub enum FaModel {
    Hit(FuModel),
    Miss(FuModel),
    Shutdown,
}

impl View for FireAssessmentMessage {
    type V = FaModel;

    open spec fn view(&self) -> FaModel {
        match self {
            FireAssessmentMessage::Hit(m) => FaModel::Hit(m@),
            FireAssessmentMessage::Miss(m) => FaModel::Miss(m@),
            FireAssessmentMessage::Shutdown() => FaModel::Shutdown,
        }
    }
}

impl DeepView for FireAssessmentMessage {
    type V = FaModel;

    open spec fn deep_view(&self) -> FaModel {
        self.view()
    }
}

impl Clone for FireAssessmentMessage {
    /// A clone carries the same model value.
    fn clone(&self) -> (r: Self)
        ensures
            r@ == self@,
    {
        match self {
            FireAssessmentMessage::Hit(m) => FireAssessmentMessage::Hit(m.clone()),
            FireAssessmentMessage::Miss(m) => FireAssessmentMessage::Miss(m.clone()),
            FireAssessmentMessage::Shutdown() => FireAssessmentMessage::Shutdown(),
        }
    }
}

/// Relies on rand::random: one machine word drawn from the thread-local
/// generator. Nothing can be promised of a random value.
#[verifier::external_body]
pub(crate) fn draw_sample() -> u64 {
    rand::random::<u64>()
}

/// The outcome of one actuator event, given the sample drawn for it.
pub open spec fn fire_assessment_step(m: FuModel, sample: u64, threshold: u64) -> (
    Option<FaModel>,
    bool,
) {
    match m {
        FuModel::MissileFired(_) => (
            Some(
                if sample < threshold {
                    FaModel::Hit(m)
                } else {
                    FaModel::Miss(m)
                },
            ),
            false,
        ),
        FuModel::FireUnitShutdown => (Some(FaModel::Shutdown), true),
    }
}

/// One assessment decision for a given sample: a firing is judged hit
/// or miss, and the actuator's sentinel is answered with the
/// assessment's own sentinel and a stop.
pub fn fire_assessment_transition(msg: FireUnitMessage, sample: u64, threshold: u64) -> (r: (
    Option<FireAssessmentMessage>,
    bool,
))
    ensures
        r.0.deep_view() == fire_assessment_step(msg@, sample, threshold).0,
        r.1 == fire_assessment_step(msg@, sample, threshold).1,
{
    match msg {
        FireUnitMessage::MissileFired(m) => {
            let inner = FireUnitMessage::MissileFired(m);
            if sample < threshold {
                (Some(FireAssessmentMessage::Hit(inner)), false)
            } else {
                (Some(FireAssessmentMessage::Miss(inner)), false)
            }
        },
        FireUnitMessage::FireUnitShutdown => (Some(FireAssessmentMessage::Shutdown()), true),
    }
}

/// One assessment decision with a freshly drawn sample: whatever the
/// draw, the answer is the assessment of the event under some sample.
pub fn assess_missile(msg: FireUnitMessage, threshold: u64) -> (r: (
    Option<FireAssessmentMessage>,
    bool,
))
    ensures
        exists|sample: u64|
            r.0.deep_view() == fire_assessment_step(msg@, sample, threshold).0 && r.1
                == fire_assessment_step(msg@, sample, threshold).1,
{
    let sample = draw_sample();
    let r = fire_assessment_transition(msg, sample, threshold);
    proof {
        assert(r.0.deep_view() == fire_assessment_step(msg@, sample, threshold).0 && r.1
            == fire_assessment_step(msg@, sample, threshold).1);
    }
    r
}

/// The whole assessment stream for one actuator stream: events are
/// handled in order until the first stop, each firing consuming the
/// next sample.
pub open spec fn fa_model(fs: Seq<FuModel>, samples: Seq<u64>, threshold: u64) -> Seq<FaModel>
    decreases fs.len(),
{
    if fs.len() == 0 {
        Seq::empty()
    } else {
        let step = fire_assessment_step(fs.first(), samples.first(), threshold);
        let head = match step.0 {
            Some(m) => seq![m],
            None => Seq::<FaModel>::empty(),
        };
        if step.1 {
            head
        } else if fs.first() is MissileFired {
            head + fa_model(fs.drop_first(), samples.drop_first(), threshold)
        } else {
            head + fa_model(fs.drop_first(), samples, threshold)
        }
    }
}

/// The assessment stage under a given sequence of samples, one consumed
/// per firing, in order.
pub fn fire_assessment_stage_seeded(
    msgs: &Vec<FireUnitMessage>,
    samples: &Vec<u64>,
    threshold: u64,
) -> (r: Vec<FireAssessmentMessage>)
    requires
        samples@.len() >= n_fired(msgs.deep_view()),
    ensures
        r.deep_view() == fa_model(msgs.deep_view(), samples@, threshold),
{
    let ghost dv = msgs.deep_view();
    let ghost sv = samples@;
    let mut out: Vec<FireAssessmentMessage> = Vec::new();
    let n = msgs.len();
    let slen = samples.len();
    let mut i: usize = 0;
    let mut k: usize = 0;
    proof {
        assert(dv.skip(0) =~= dv);
        assert(sv.skip(0) =~= sv);
        assert(out.deep_view() + fa_model(dv, sv, threshold) =~= fa_model(dv, sv, threshold));
    }
    while i < n
        invariant_except_break
            i <= n,
            n == dv.len(),
            dv == msgs.deep_view(),
            msgs@.len() == n,
            sv == samples@,
            slen == samples@.len(),
            samples@.len() >= n_fired(dv),
            k <= samples@.len(),
            k + n_fired(dv.skip(i as int)) == n_fired(dv),
            out.deep_view() + fa_model(dv.skip(i as int), sv.skip(k as int), threshold)
                == fa_model(dv, sv, threshold),
        ensures
            out.deep_view() == fa_model(dv, sv, threshold),
        decreases n - i,
    {
        let ghost rest = dv.skip(i as int);
        let ghost srest = sv.skip(k as int);
        proof {
            assert(rest.first() == dv[i as int]);
            assert(rest.drop_first() =~= dv.skip(i as int + 1));
        }
        let m = msgs[i].clone();
        assert(m@ == dv[i as int]);
        let fired = match &m {
            FireUnitMessage::MissileFired(_) => true,
            FireUnitMessage::FireUnitShutdown => false,
        };
        let sample: u64;
        if fired {
            proof {
                lemma_count_bounds(rest.drop_first(), fired_p());
                assert(count_matching(rest, fired_p()) >= 1);
                assert(k < samples@.len());
                assert(srest.first() == sv[k as int]);
                assert(srest.drop_first() =~= sv.skip(k as int + 1));
            }
            sample = samples[k];
            k = k + 1;
        } else {
            sample = 0;
        }
        let (emit, stop) = fire_assessment_transition(m, sample, threshold);
        match emit {
            Some(e) => {
                let ghost odv = out.deep_view();
                out.push(e);
                proof {
                    assert(out.deep_view() =~= odv.push(e@));
                    assert(odv.push(e@) =~= odv + seq![e@]);
                }
            },
            None => {},
        }
        if stop {
            proof {
                assert(fa_model(rest, srest, threshold) =~= seq![
                    fire_assessment_step(dv[i as int], srest.first(), threshold).0.unwrap(),
                ]);
            }
            break;
        }
        proof {
            if fired {
                assert(fa_model(rest, srest, threshold) =~= seq![
                    fire_assessment_step(dv[i as int], sv[k as int - 1], threshold).0.unwrap(),
                ] + fa_model(dv.skip(i as int + 1), sv.skip(k as int), threshold));
            } else {
                assert(fa_model(rest, srest, threshold) =~= fa_model(
                    dv.skip(i as int + 1),
                    srest,
                    threshold,
                ));
            }
        }
        i = i + 1;
    }
    proof {
        if i == n && out.deep_view() + fa_model(dv.skip(n as int), sv.skip(k as int), threshold)
            == fa_model(dv, sv, threshold) {
            assert(dv.skip(n as int) =~= Seq::<FuModel>::empty());
            assert(out.deep_view() + Seq::<FaModel>::empty() =~= out.deep_view());
        }
    }
    out
}

/// The assessment stage with freshly drawn samples: whatever the draws,
/// the output is the assessment of the input under some sample
/// sequence, one sample per input event.
pub fn fire_assessment_stage(msgs: &Vec<FireUnitMessage>, threshold: u64) -> (r: Vec<
    FireAssessmentMessage,
>)
    ensures
        exists|samples: Seq<u64>|
            samples.len() == msgs.deep_view().len() && r.deep_view() == fa_model(
                msgs.deep_view(),
                samples,
                threshold,
            ),
{
    let n = msgs.len();
    let mut samples: Vec<u64> = Vec::new();
    let mut i: usize = 0;
    while i < n
        invariant
            i <= n,
            samples@.len() == i,
        decreases n - i,
    {
        samples.push(draw_sample());
        i = i + 1;
    }
    proof {
        lemma_count_bounds(msgs.deep_view(), fired_p());
    }
    let r = fire_assessment_stage_seeded(msgs, &samples, threshold);
    proof {
        assert(samples@.len() == msgs.deep_view().len() && r.deep_view() == fa_model(
            msgs.deep_view(),
            samples@,
            threshold,
        ));
    }
    r
}

/// Does this assessment event record a hit? A miss?
pub open spec fn hit_p() -> spec_fn(FaModel) -> bool {
    |m: FaModel| m is Hit
}

pub open spec fn miss_p() -> spec_fn(FaModel) -> bool {
    |m: FaModel| m is Miss
}

pub open spec fn fa_shutdown_p() -> spec_fn(FaModel) -> bool {
    |m: FaModel| m is Shutdown
}

/// Every firing of a well-formed actuator stream is judged exactly
/// once: hits and misses together match the missiles fired, whatever
/// the samples.
pub proof fn lemma_every_missile_assessed(fs: Seq<FuModel>, samples: Seq<u64>, threshold: u64)
    requires
        wf_fu(fs),
    ensures
        count_matching(fa_model(fs, samples, threshold), hit_p()) + count_matching(
            fa_model(fs, samples, threshold),
            miss_p(),
        ) == n_fired(fs),
    decreases fs.len(),
{
    let out = fa_model(fs, samples, threshold);
    if fs.len() == 1 {
        assert(fs.first() == fs.last());
        assert(out =~= seq![FaModel::Shutdown]);
        assert(out.first() == FaModel::Shutdown);
        assert(out.drop_first() =~= Seq::<FaModel>::empty());
        assert(count_matching(Seq::<FaModel>::empty(), hit_p()) == 0);
        assert(count_matching(Seq::<FaModel>::empty(), miss_p()) == 0);
        assert(count_matching(out, hit_p()) == 0);
        assert(count_matching(out, miss_p()) == 0);
        assert(fs.drop_first() =~= Seq::<FuModel>::empty());
        assert(count_matching(Seq::<FuModel>::empty(), fired_p()) == 0);
        assert(n_fired(fs) == 1 - 1);
    } else {
        assert(!(fs[0] is FireUnitShutdown));
        let t = fs.drop_first();
        assert(t.last() == fs.last());
        assert(forall|i: int| 0 <= i < t.len() - 1 ==> t[i] == fs[i + 1]);
        assert(wf_fu(t));
        assert(fs.first() is MissileFired);
        lemma_every_missile_assessed(t, samples.drop_first(), threshold);
        let step = fire_assessment_step(fs.first(), samples.first(), threshold);
        let m = step.0.unwrap();
        let tail = fa_model(t, samples.drop_first(), threshold);
        assert(out =~= seq![m] + tail);
        crate::count::lemma_count_cons(m, tail, hit_p());
        crate::count::lemma_count_cons(m, tail, miss_p());
        crate::count::lemma_count_cons(fs.first(), t, fired_p());
        assert(seq![fs.first()] + t =~= fs);
    }
}

/// On a well-formed actuator stream the assessment stream closes with
/// exactly one sentinel, its last event, whatever the samples.
pub proof fn lemma_fa_wf(fs: Seq<FuModel>, samples: Seq<u64>, threshold: u64)
    ensures
        wf_fu(fs) ==> {
            let out = fa_model(fs, samples, threshold);
            &&& out.len() > 0
            &&& out.last() is Shutdown
            &&& forall|i: int| 0 <= i < out.len() - 1 ==> !(#[trigger] out[i] is Shutdown)
        },
    decreases fs.len(),
{
    if wf_fu(fs) {
        let out = fa_model(fs, samples, threshold);
        if fs.len() == 1 {
            assert(fs.first() == fs.last());
            assert(out =~= seq![FaModel::Shutdown]);
        } else {
            assert(!(fs[0] is FireUnitShutdown));
            let t = fs.drop_first();
            assert(t.last() == fs.last());
            assert(forall|i: int| 0 <= i < t.len() - 1 ==> t[i] == fs[i + 1]);
            assert(wf_fu(t));
            assert(fs.first() is MissileFired);
            lemma_fa_wf(t, samples.drop_first(), threshold);
            let step = fire_assessment_step(fs.first(), samples.first(), threshold);
            let m = step.0.unwrap();
            let tail = fa_model(t, samples.drop_first(), threshold);
            assert(out =~= seq![m] + tail);
            assert(!(m is Shutdown));
            assert(out.last() == tail.last());
            assert(forall|i: int| 1 <= i < out.len() - 1 ==> #[trigger] out[i] == tail[i - 1]);
        }
    }
}

} // verus!
