//! The Zoom heuristic.

use iris::datatypes::maybe_zoom::{
    is_zoom_payload, required_matches, MaybeZoom, MAYBE_ZOOM_MIN_PKTS, MAYBE_ZOOM_WINDOW,
};
use iris::subscription::FilterResult;

fn new_for_test() -> MaybeZoom {
    MaybeZoom { seen: 0, matched: 0 }
}

#[test]
fn zoom_payload_bit_pattern() {
    assert!(is_zoom_payload(&[0x03, 0x00]));
    assert!(is_zoom_payload(&[0x04]));
    assert!(is_zoom_payload(&[0x05]));
    assert!(is_zoom_payload(&[0x07]));
    assert!(!is_zoom_payload(&[0x00]));
    assert!(!is_zoom_payload(&[0x06]));
    assert!(!is_zoom_payload(&[]));
}

#[test]
fn required_matches_matches_configured_threshold() {
    // 30 * 0.95 = 28.5, so 29 of 30 -- tolerates exactly one stray packet.
    assert_eq!(required_matches(), 29);
}

#[test]
fn maybe_zoom_terminated_drops_flows_below_the_evidence_floor() {
    let mut f = new_for_test();
    for b in [0x03, 0x04]
        .into_iter()
        .cycle()
        .take(MAYBE_ZOOM_MIN_PKTS - 1)
    {
        f.record(&[b]);
    }
    assert!(matches!(f.terminated(), FilterResult::Drop));

    let mut f = new_for_test();
    for b in [0x03, 0x04].into_iter().cycle().take(MAYBE_ZOOM_MIN_PKTS) {
        f.record(&[b]);
    }
    assert!(matches!(f.terminated(), FilterResult::Accept));
}

#[test]
fn maybe_zoom_terminated_applies_fraction_to_observed_packets() {
    let mut f = new_for_test();
    for _ in 0..29 {
        f.record(&[0x03]);
    }
    for _ in 0..1 {
        f.record(&[0x00]); // not a Zoom marker
    }
    // 30 seen, 29 matched -- 97% >= 95%
    assert_eq!(f.seen, 30);
    assert!(matches!(f.terminated(), FilterResult::Accept));

    let mut f = new_for_test();
    for _ in 0..27 {
        f.record(&[0x03]);
    }
    for _ in 0..3 {
        f.record(&[0x00]);
    }
    // 30 seen, 27 matched -- 90% < 95%
    assert!(matches!(f.terminated(), FilterResult::Drop));
}

#[test]
fn decide_drops_once_window_exhausted_below_threshold() {
    let mut f = new_for_test();
    let mut result = FilterResult::Continue;
    for i in 0..MAYBE_ZOOM_WINDOW {
        if i < 9 {
            f.record(&[0x03]);
        } else {
            f.record(&[0x00]);
        }
        result = f.decide();
    }
    assert!(matches!(result, FilterResult::Drop));
}

#[test]
fn decide_accepts_once_threshold_reached() {
    let mut f = new_for_test();
    for _ in 0..(required_matches() - 1) {
        f.record(&[0x04]);
    }
    assert!(matches!(f.decide(), FilterResult::Continue));
    f.record(&[0x05]);
    assert!(matches!(f.decide(), FilterResult::Accept));
}

