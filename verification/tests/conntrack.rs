//! Connection tracking.

use iris::conntrack::conn_state::{StateTransition, NUM_STATE_TRANSITIONS};
use iris::conntrack::reassembly::{lowest_seq, select_resume_seq};

#[test]
fn core_select_resume_seq_empty_buffer() {
    assert_eq!(select_resume_seq(1000, &[]), None);
}

#[test]
fn core_select_resume_seq_all_stale() {
    // Everything buffered is at or behind the expected sequence number, so
    // skipping the gap would not advance the stream.
    assert_eq!(
        select_resume_seq(1000, &[1000, 900, 500]),
        None
    );
}

#[test]
fn core_select_resume_seq_single_future_segment() {
    assert_eq!(
        select_resume_seq(1000, &[1500]),
        Some((1500, 500))
    );
}

#[test]
fn core_select_resume_seq_picks_minimum() {
    // The minimal skip is the right one: resume as early as the buffer allows.
    assert_eq!(
        select_resume_seq(1000, &[4000, 1200, 9000, 1500]),
        Some((1200, 200))
    );
}

#[test]
fn core_select_resume_seq_ignores_stale_among_future() {
    assert_eq!(
        select_resume_seq(1000, &[800, 2000, 1000, 1400]),
        Some((1400, 400))
    );
}

#[test]
fn core_select_resume_seq_wraps_around_zero() {
    // Expected sequence number near the top of the space; buffered segments
    // have already wrapped past 2^32.
    let next_seq = u32::MAX - 99;
    assert_eq!(
        select_resume_seq(next_seq, &[400, 50]),
        Some((50, 150))
    );
}

#[test]
fn core_lowest_seq_empty() {
    assert_eq!(lowest_seq(&[]), None);
}

#[test]
fn core_lowest_seq_single() {
    // The one-segment case that matters: a flow with no expected sequence
    // number must be able to adopt its only buffered segment as the stream
    // start. `select_resume_seq` cannot, because its comparison is strict.
    assert_eq!(lowest_seq(&[1500]), Some(1500));
    assert_eq!(select_resume_seq(1500, &[1500]), None);
}

#[test]
fn core_lowest_seq_ignores_arrival_order() {
    // Segments are buffered in arrival order, not sequence order, so the front
    // of the buffer is no guide to the lowest sequence number.
    assert_eq!(
        lowest_seq(&[9000, 1200, 4000, 1500]),
        Some(1200)
    );
}

#[test]
fn core_lowest_seq_wraps_around_zero() {
    assert_eq!(
        lowest_seq(&[50, u32::MAX - 99, 400]),
        Some(u32::MAX - 99)
    );
}

#[test]
fn core_select_resume_seq_stale_across_wrap() {
    // A segment just behind a wrapped `next_seq` must not be treated as future.
    let next_seq = 100u32;
    assert_eq!(
        select_resume_seq(next_seq, &[u32::MAX - 10, 900]),
        Some((900, 800))
    );
}

#[test]
fn test_data_level_raw() {
    assert_eq!(
        StateTransition::Packet.as_usize(),
        NUM_STATE_TRANSITIONS,
        "{} != {}",
        StateTransition::Packet.as_usize(),
        NUM_STATE_TRANSITIONS
    );
}

#[test]
fn core_num_state_tx() {
    assert!(NUM_STATE_TRANSITIONS <= u8::BITS as usize);
}
