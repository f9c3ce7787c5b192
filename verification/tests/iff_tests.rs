use engagement::fire_assessment::{FireAssessmentMessage, fire_assessment_transition};
use engagement::fire_unit::{FireUnitMessage, fire_unit_transition};
use engagement::iff::{IFFMessage, iff_transition, is_hostile};
use engagement::radar::{ParseFault, RadarMessage};

#[test]
fn test_hostile_calc() {
    assert!(!is_hostile(&vec![]));
    assert!(!is_hostile(&vec![2, 4]));
    assert!(!is_hostile(&vec![2, 5]));
    assert!(is_hostile(&vec![1, 2, 5]));
}

#[test]
fn iff_test_hostile_calc() {
    assert!(!is_hostile(&vec![]));
    assert!(!is_hostile(&vec![2, 4]));
    assert!(!is_hostile(&vec![2, 5]));
    assert!(is_hostile(&vec![1, 2, 5]));
}

#[test]
fn classifier_forwards_reading_with_verdict() {
    let (emit, stop) = iff_transition(RadarMessage::Received(vec![1, 2, 5]));
    assert!(!stop);
    match emit {
        Some(IFFMessage::HostileDetected(RadarMessage::Received(v))) => {
            assert_eq!(v, vec![1, 2, 5])
        },
        _ => panic!("expected a hostile classification"),
    }

    let (emit, stop) = iff_transition(RadarMessage::Received(vec![2, 4]));
    assert!(!stop);
    match emit {
        Some(IFFMessage::FriendlyDetected(RadarMessage::Received(v))) => {
            assert_eq!(v, vec![2, 4])
        },
        _ => panic!("expected a friendly classification"),
    }
}

#[test]
fn classifier_skips_faults_and_answers_sentinel() {
    let (emit, stop) = iff_transition(RadarMessage::ScanIntError(ParseFault::InvalidDigit));
    assert!(emit.is_none());
    assert!(!stop);

    let (emit, stop) = iff_transition(RadarMessage::ScanIOError(String::from("gone")));
    assert!(emit.is_none());
    assert!(!stop);

    let (emit, stop) = iff_transition(RadarMessage::EndOfData);
    assert!(matches!(emit, Some(IFFMessage::IFFShutDown)));
    assert!(stop);
}

#[test]
fn actuator_fires_at_hostiles_only() {
    let hostile = IFFMessage::HostileDetected(RadarMessage::Received(vec![1]));
    let (emit, stop) = fire_unit_transition(hostile);
    assert!(matches!(emit, Some(FireUnitMessage::MissileFired(..))));
    assert!(!stop);

    let friendly = IFFMessage::FriendlyDetected(RadarMessage::Received(vec![2]));
    let (emit, stop) = fire_unit_transition(friendly);
    assert!(emit.is_none());
    assert!(!stop);

    let (emit, stop) = fire_unit_transition(IFFMessage::IFFShutDown);
    assert!(matches!(emit, Some(FireUnitMessage::FireUnitShutdown)));
    assert!(stop);
}

#[test]
fn assessment_judges_by_sample_and_threshold() {
    let fired = || {
        FireUnitMessage::MissileFired(IFFMessage::HostileDetected(RadarMessage::Received(vec![
            1,
        ])))
    };
    let (emit, stop) = fire_assessment_transition(fired(), 3, 10);
    assert!(matches!(emit, Some(FireAssessmentMessage::Hit(..))));
    assert!(!stop);

    let (emit, stop) = fire_assessment_transition(fired(), 10, 10);
    assert!(matches!(emit, Some(FireAssessmentMessage::Miss(..))));
    assert!(!stop);

    let (emit, stop) = fire_assessment_transition(FireUnitMessage::FireUnitShutdown, 0, 10);
    assert!(matches!(emit, Some(FireAssessmentMessage::Shutdown())));
    assert!(stop);
}
