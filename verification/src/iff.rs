//! Classifier stage: turns each decoded reading into a hostile or
//! friendly classification and closes its own channel with a sentinel
//! when the source reports end of data.
//!
//! The decision rule is pure: a reading is hostile exactly when more
//! than half of its byte values are odd.

use vstd::prelude::*;

use crate::count::{count_matching, lemma_count_cons};
use crate::radar::{RadarMessage, RadarModel, received_p, wf_radar};

verus! {

/// One event on the classifier channel, carrying the originating reading.
#[derive(Debug)]
pub enum IFFMessage {
    HostileDetected(RadarMessage),
    FriendlyDetected(RadarMessage),
    IFFShutDown,
}

/// The mathematical shape of a classifier event.
pub enum IffModel {
    HostileDetected(RadarModel),
    FriendlyDetected(RadarModel),
    IFFShutDown,
}

impl View for IFFMessage {
    type V = IffModel;

    open spec fn view(&self) -> IffModel {
        match self {
            IFFMessage::HostileDetected(m) => IffModel::HostileDetected(m@),
            IFFMessage::FriendlyDetected(m) => IffModel::FriendlyDetected(m@),
            IFFMessage::IFFShutDown => IffModel::IFFShutDown,
        }
    }
}

impl DeepView for IFFMessage {
    type V = IffModel;

    open spec fn deep_view(&self) -> IffModel {
        self.view()
    }
}

impl Clone for IFFMessage {
    /// A clone carries the same model value.
    fn clone(&self) -> (r: Self)
        ensures
            r@ == self@,
    {
        match self {
            IFFMessage::HostileDetected(m) => IFFMessage::HostileDetected(m.clone()),
            IFFMessage::FriendlyDetected(m) => IFFMessage::FriendlyDetected(m.clone()),
            IFFMessage::IFFShutDown => IFFMessage::IFFShutDown,
        }
    }
}

/// How many of the values are odd.
pub open spec fn odd_count(vs: Seq<u8>) -> int
    decreases vs.len(),
{
    if vs.len() == 0 {
        0
    } else {
        odd_count(vs.drop_last()) + (if vs.last() % 2 != 0 {
            1int
        } else {
            0int
        })
    }
}

/// The decision rule: hostile exactly when odd values form a strict
/// majority. An empty reading is friendly.
pub open spec fn hostile(vs: Seq<u8>) -> bool {
    2 * odd_count(vs) > vs.len()
}

proof fn lemma_odd_count_bounds(vs: Seq<u8>)
    ensures
        0 <= odd_count(vs) <= vs.len(),
    decreases vs.len(),
{
    if vs.len() > 0 {
        lemma_odd_count_bounds(vs.drop_last());
    }
}

/// Decides whether a reading is hostile: odd values in strict majority.
pub fn is_hostile(values: &Vec<u8>) -> (r: bool)
    ensures
        r == hostile(values@),
{
    let n = values.len();
    let mut odd: usize = 0;
    let mut i: usize = 0;
    proof {
        assert(values@.take(0) =~= Seq::<u8>::empty());
    }
    while i < n
        invariant
            i <= n,
            n == values@.len(),
            odd <= i,
            odd == odd_count(values@.take(i as int)),
        decreases n - i,
    {
        proof {
            assert(values@.take(i as int + 1).drop_last() =~= values@.take(i as int));
            assert(values@.take(i as int + 1).last() == values@[i as int]);
        }
        if values[i] % 2 != 0 {
            odd = odd + 1;
        }
        i = i + 1;
    }
    proof {
        assert(values@.take(n as int) =~= values@);
    }
    odd > n - odd
}

/// The classifier's answer to one radar event: what to emit, if
/// anything, and whether to stop afterwards.
pub open spec fn iff_step(m: RadarModel) -> (Option<IffModel>, bool) {
    match m {
        RadarModel::Received(v) => (
            Some(
                if hostile(v) {
                    IffModel::HostileDetected(m)
                } else {
                    IffModel::FriendlyDetected(m)
                },
            ),
            false,
        ),
        RadarModel::ScanIntError(_) => (None, false),
        RadarModel::ScanIOError(_) => (None, false),
        RadarModel::EndOfData => (Some(IffModel::IFFShutDown), true),
    }
}

/// One classifier decision: a reading is classified and forwarded with
/// its event, a faulty record is skipped, and the source's sentinel is
/// answered with the classifier's own sentinel and a stop.
pub fn iff_transition(msg: RadarMessage) -> (r: (Option<IFFMessage>, bool))
    ensures
        r.0.deep_view() == iff_step(msg@).0,
        r.1 == iff_step(msg@).1,
{
    match msg {
        RadarMessage::Received(v) => {
            let h = is_hostile(&v);
            let m = RadarMessage::Received(v);
            if h {
                (Some(IFFMessage::HostileDetected(m)), false)
            } else {
                (Some(IFFMessage::FriendlyDetected(m)), false)
            }
        },
        RadarMessage::ScanIntError(_) => (None, false),
        RadarMessage::ScanIOError(_) => (None, false),
        RadarMessage::EndOfData => (Some(IFFMessage::IFFShutDown), true),
    }
}

/// The whole classifier stream for one radar stream: events are handled
/// in order until the first stop.
pub open spec fn iff_model(rs: Seq<RadarModel>) -> Seq<IffModel>
    decreases rs.len(),
{
    if rs.len() == 0 {
        Seq::empty()
    } else {
        let step = iff_step(rs.first());
        let head = match step.0 {
            Some(m) => seq![m],
            None => Seq::<IffModel>::empty(),
        };
        if step.1 {
            head
        } else {
            head + iff_model(rs.drop_first())
        }
    }
}

/// The classifier stage on a whole radar stream.
pub fn iff_stage(msgs: &Vec<RadarMessage>) -> (r: Vec<IFFMessage>)
    ensures
        r.deep_view() == iff_model(msgs.deep_view()),
{
    let ghost dv = msgs.deep_view();
    let mut out: Vec<IFFMessage> = Vec::new();
    let n = msgs.len();
    let mut i: usize = 0;
    proof {
        assert(dv.skip(0) =~= dv);
        assert(out.deep_view() + iff_model(dv) =~= iff_model(dv));
    }
    while i < n
        invariant_except_break
            i <= n,
            n == dv.len(),
            dv == msgs.deep_view(),
            msgs@.len() == n,
            out.deep_view() + iff_model(dv.skip(i as int)) == iff_model(dv),
        ensures
            out.deep_view() == iff_model(dv),
        decreases n - i,
    {
        let ghost rest = dv.skip(i as int);
        proof {
            assert(rest.first() == dv[i as int]);
            assert(rest.drop_first() =~= dv.skip(i as int + 1));
        }
        let m = msgs[i].clone();
        assert(m@ == dv[i as int]);
        let (emit, stop) = iff_transition(m);
        match emit {
            Some(e) => {
                let ghost odv = out.deep_view();
                out.push(e);
                proof {
                    assert(out.deep_view() =~= odv.push(e@));
                    assert(odv.push(e@) =~= odv + seq![e@]);
                }
            },
            None => {},
        }
        if stop {
            proof {
                assert(iff_model(rest) =~= seq![iff_step(dv[i as int]).0.unwrap()]);
            }
            break;
        }
        proof {
            if iff_step(dv[i as int]).0 is Some {
                assert(out.deep_view() + iff_model(dv.skip(i as int + 1)) =~= iff_model(dv));
            } else {
                assert(iff_model(rest) =~= iff_model(dv.skip(i as int + 1)));
            }
        }
        i = i + 1;
    }
    proof {
        if i == n && out.deep_view() + iff_model(dv.skip(n as int)) == iff_model(dv) {
            assert(dv.skip(n as int) =~= Seq::<RadarModel>::empty());
            assert(out.deep_view() + Seq::<IffModel>::empty() =~= out.deep_view());
        }
    }
    out
}

/// Does this classifier event report a hostile? A friendly? The
/// sentinel?
pub open spec fn hostile_p() -> spec_fn(IffModel) -> bool {
    |m: IffModel| m is HostileDetected
}

pub open spec fn friendly_p() -> spec_fn(IffModel) -> bool {
    |m: IffModel| m is FriendlyDetected
}

pub open spec fn iff_shutdown_p() -> spec_fn(IffModel) -> bool {
    |m: IffModel| m is IFFShutDown
}

/// A well-formed classifier stream: non-empty, the sentinel is its last
/// event and appears nowhere else.
pub open spec fn wf_iff(is: Seq<IffModel>) -> bool {
    &&& is.len() > 0
    &&& is.last() is IFFShutDown
    &&& forall|i: int| 0 <= i < is.len() - 1 ==> !(#[trigger] is[i] is IFFShutDown)
}

/// Every reading of a well-formed radar stream is classified exactly
/// once: hostile and friendly classifications together match the
/// readings.
pub proof fn lemma_every_reading_classified(rs: Seq<RadarModel>)
    requires
        wf_radar(rs),
    ensures
        count_matching(iff_model(rs), hostile_p()) + count_matching(iff_model(rs), friendly_p())
            == count_matching(rs, received_p()),
    decreases rs.len(),
{
    let out = iff_model(rs);
    if rs.len() == 1 {
        assert(rs.first() == rs.last());
        assert(out =~= seq![IffModel::IFFShutDown]);
        assert(out.first() == IffModel::IFFShutDown);
        assert(out.drop_first() =~= Seq::<IffModel>::empty());
        assert(count_matching(Seq::<IffModel>::empty(), hostile_p()) == 0);
        assert(count_matching(Seq::<IffModel>::empty(), friendly_p()) == 0);
        assert(rs.drop_first() =~= Seq::<RadarModel>::empty());
        assert(count_matching(Seq::<RadarModel>::empty(), received_p()) == 0);
    } else {
        assert(!(rs[0] is EndOfData));
        let t = rs.drop_first();
        assert(t.last() == rs.last());
        assert(forall|i: int| 0 <= i < t.len() - 1 ==> t[i] == rs[i + 1]);
        assert(wf_radar(t));
        lemma_every_reading_classified(t);
        let tail = iff_model(t);
        let step = iff_step(rs.first());
        assert(!step.1);
        match step.0 {
            Some(m) => {
                assert(out =~= seq![m] + tail);
                lemma_count_cons(m, tail, hostile_p());
                lemma_count_cons(m, tail, friendly_p());
                assert(rs.first() is Received);
                assert((m is HostileDetected) != (m is FriendlyDetected));
            },
            None => {
                assert(out =~= tail);
                assert(!(rs.first() is Received));
            },
        }
    }
}

/// On a well-formed radar stream the classifier emits a well-formed
/// stream: exactly one sentinel, last.
pub proof fn lemma_iff_wf(rs: Seq<RadarModel>)
    requires
        wf_radar(rs),
    ensures
        wf_iff(iff_model(rs)),
    decreases rs.len(),
{
    let out = iff_model(rs);
    if rs.len() == 1 {
        assert(rs.first() == rs.last());
        assert(out =~= seq![IffModel::IFFShutDown]);
    } else {
        assert(!(rs[0] is EndOfData));
        let t = rs.drop_first();
        assert(t.last() == rs.last());
        assert(forall|i: int| 0 <= i < t.len() - 1 ==> t[i] == rs[i + 1]);
        assert(wf_radar(t));
        lemma_iff_wf(t);
        let tail = iff_model(t);
        let step = iff_step(rs.first());
        assert(!step.1);
        match step.0 {
            Some(m) => {
                assert(out =~= seq![m] + tail);
                assert(!(m is IFFShutDown));
                assert(out.last() == tail.last());
                assert(forall|i: int|
                    1 <= i < out.len() - 1 ==> #[trigger] out[i] == tail[i - 1]);
            },
            None => {
                assert(out =~= tail);
            },
        }
    }
}

} // verus!
