//! Actuator stage: answers every hostile classification with exactly
//! one missile firing, lets friendly classifications pass unanswered,
//! and closes its own channel with a sentinel when the classifier does.

use vstd::prelude::*;

use crate::count::{count_matching, lemma_count_cons};
use crate::iff::{IFFMessage, IffModel, hostile_p, wf_iff};

verus! {

/// One event on the actuator channel, carrying the classification that
/// caused it.
#[derive(Debug)]
pub enum FireUnitMessage {
    MissileFired(IFFMessage),
    FireUnitShutdown,
}

/// The mathematical shape of an actuator event.
pub enum FuModel {
    MissileFired(IffModel),
    FireUnitShutdown,
}

impl View for FireUnitMessage {
    type V = FuModel;

    open spec fn view(&self) -> FuModel {
        match self {
            FireUnitMessage::MissileFired(m) => FuModel::MissileFired(m@),
            FireUnitMessage::FireUnitShutdown => FuModel::FireUnitShutdown,
        }
    }
}

impl DeepView for FireUnitMessage {
    type V = FuModel;

    open spec fn deep_view(&self) -> FuModel {
        self.view()
    }
}

impl Clone for FireUnitMessage {
    /// A clone carries the same model value.
    fn clone(&self) -> (r: Self)
        ensures
            r@ == self@,
    {
        match self {
            FireUnitMessage::MissileFired(m) => FireUnitMessage::MissileFired(m.clone()),
            FireUnitMessage::FireUnitShutdown => FireUnitMessage::FireUnitShutdown,
        }
    }
}

/// The actuator's answer to one classifier event.
pub open spec fn fire_unit_step(m: IffModel) -> (Option<FuModel>, bool) {
    match m {
        IffModel::HostileDetected(_) => (Some(FuModel::MissileFired(m)), false),
        IffModel::FriendlyDetected(_) => (None, false),
        IffModel::IFFShutDown => (Some(FuModel::FireUnitShutdown), true),
    }
}

/// One actuator decision: fire at a hostile, ignore a friendly, and
/// answer the classifier's sentinel with the actuator's own sentinel
/// and a stop.
pub fn fire_unit_transition(msg: IFFMessage) -> (r: (Option<FireUnitMessage>, bool))
    ensures
        r.0.deep_view() == fire_unit_step(msg@).0,
        r.1 == fire_unit_step(msg@).1,
{
    match msg {
        IFFMessage::HostileDetected(m) => {
            let inner = IFFMessage::HostileDetected(m);
            (Some(FireUnitMessage::MissileFired(inner)), false)
        },
        IFFMessage::FriendlyDetected(_) => (None, false),
        IFFMessage::IFFShutDown => (Some(FireUnitMessage::FireUnitShutdown), true),
    }
}

/// The whole actuator stream for one classifier stream: events are
/// handled in order until the first stop.
pub open spec fn fu_model(is: Seq<IffModel>) -> Seq<FuModel>
    decreases is.len(),
{
    if is.len() == 0 {
        Seq::empty()
    } else {
        let step = fire_unit_step(is.first());
        let head = match step.0 {
            Some(m) => seq![m],
            None => Seq::<FuModel>::empty(),
        };
        if step.1 {
            head
        } else {
            head + fu_model(is.drop_first())
        }
    }
}

/// The actuator stage on a whole classifier stream.
pub fn fire_unit_stage(msgs: &Vec<IFFMessage>) -> (r: Vec<FireUnitMessage>)
    ensures
        r.deep_view() == fu_model(msgs.deep_view()),
{
    let ghost dv = msgs.deep_view();
    let mut out: Vec<FireUnitMessage> = Vec::new();
    let n = msgs.len();
    let mut i: usize = 0;
    proof {
        assert(dv.skip(0) =~= dv);
        assert(out.deep_view() + fu_model(dv) =~= fu_model(dv));
    }
    while i < n
        invariant_except_break
            i <= n,
            n == dv.len(),
            dv == msgs.deep_view(),
            msgs@.len() == n,
            out.deep_view() + fu_model(dv.skip(i as int)) == fu_model(dv),
        ensures
            out.deep_view() == fu_model(dv),
        decreases n - i,
    {
        let ghost rest = dv.skip(i as int);
        proof {
            assert(rest.first() == dv[i as int]);
            assert(rest.drop_first() =~= dv.skip(i as int + 1));
        }
        let m = msgs[i].clone();
        assert(m@ == dv[i as int]);
        let (emit, stop) = fire_unit_transition(m);
        match emit {
            Some(e) => {
                let ghost odv = out.deep_view();
                out.push(e);
                proof {
                    assert(out.deep_view() =~= odv.push(e@));
                    assert(odv.push(e@) =~= odv + seq![e@]);
                }
            },
            None => {},
        }
        if stop {
            proof {
                assert(fu_model(rest) =~= seq![fire_unit_step(dv[i as int]).0.unwrap()]);
            }
            break;
        }
        proof {
            if fire_unit_step(dv[i as int]).0 is Some {
                assert(out.deep_view() + fu_model(dv.skip(i as int + 1)) =~= fu_model(dv));
            } else {
                assert(fu_model(rest) =~= fu_model(dv.skip(i as int + 1)));
            }
        }
        i = i + 1;
    }
    proof {
        if i == n && out.deep_view() + fu_model(dv.skip(n as int)) == fu_model(dv) {
            assert(dv.skip(n as int) =~= Seq::<IffModel>::empty());
            assert(out.deep_view() + Seq::<FuModel>::empty() =~= out.deep_view());
        }
    }
    out
}

/// Does this actuator event fire a missile?
pub open spec fn fired_p() -> spec_fn(FuModel) -> bool {
    |m: FuModel| m is MissileFired
}

/// How many missiles an actuator stream fires.
pub open spec fn n_fired(fs: Seq<FuModel>) -> int {
    count_matching(fs, fired_p())
}

/// Is this actuator event the sentinel?
pub open spec fn fu_shutdown_p() -> spec_fn(FuModel) -> bool {
    |m: FuModel| m is FireUnitShutdown
}

/// Every hostile classification of a well-formed classifier stream
/// triggers exactly one firing: missiles fired match hostiles detected.
pub proof fn lemma_every_hostile_fired(is: Seq<IffModel>)
    requires
        wf_iff(is),
    ensures
        n_fired(fu_model(is)) == count_matching(is, hostile_p()),
    decreases is.len(),
{
    let out = fu_model(is);
    if is.len() == 1 {
        assert(is.first() == is.last());
        assert(out =~= seq![FuModel::FireUnitShutdown]);
        assert(out.first() == FuModel::FireUnitShutdown);
        assert(out.drop_first() =~= Seq::<FuModel>::empty());
        assert(count_matching(Seq::<FuModel>::empty(), fired_p()) == 0);
        assert(is.drop_first() =~= Seq::<IffModel>::empty());
        assert(count_matching(Seq::<IffModel>::empty(), hostile_p()) == 0);
    } else {
        assert(!(is[0] is IFFShutDown));
        let t = is.drop_first();
        assert(t.last() == is.last());
        assert(forall|i: int| 0 <= i < t.len() - 1 ==> t[i] == is[i + 1]);
        assert(wf_iff(t));
        lemma_every_hostile_fired(t);
        let tail = fu_model(t);
        let step = fire_unit_step(is.first());
        assert(!step.1);
        match step.0 {
            Some(m) => {
                assert(out =~= seq![m] + tail);
                lemma_count_cons(m, tail, fired_p());
                assert(is.first() is HostileDetected);
                assert(m is MissileFired);
            },
            None => {
                assert(out =~= tail);
                assert(!(is.first() is HostileDetected));
            },
        }
    }
}

/// A well-formed actuator stream: non-empty, the sentinel is its last
/// event and appears nowhere else.
pub open spec fn wf_fu(fs: Seq<FuModel>) -> bool {
    &&& fs.len() > 0
    &&& fs.last() is FireUnitShutdown
    &&& forall|i: int| 0 <= i < fs.len() - 1 ==> !(#[trigger] fs[i] is FireUnitShutdown)
}

/// On a well-formed classifier stream the actuator emits a well-formed
/// stream: exactly one sentinel, last.
pub proof fn lemma_fu_wf(is: Seq<IffModel>)
    requires
        wf_iff(is),
    ensures
        wf_fu(fu_model(is)),
    decreases is.len(),
{
    let out = fu_model(is);
    if is.len() == 1 {
        assert(is.first() == is.last());
        assert(out =~= seq![FuModel::FireUnitShutdown]);
    } else {
        assert(!(is[0] is IFFShutDown));
        let t = is.drop_first();
        assert(t.last() == is.last());
        assert(forall|i: int| 0 <= i < t.len() - 1 ==> t[i] == is[i + 1]);
        assert(wf_iff(t));
        lemma_fu_wf(t);
        let tail = fu_model(t);
        let step = fire_unit_step(is.first());
        assert(!step.1);
        match step.0 {
            Some(m) => {
                assert(out =~= seq![m] + tail);
                assert(!(m is FireUnitShutdown));
                assert(out.last() == tail.last());
                assert(forall|i: int|
                    1 <= i < out.len() - 1 ==> #[trigger] out[i] == tail[i - 1]);
            },
            None => {
                assert(out =~= tail);
            },
        }
    }
}

} // verus!
