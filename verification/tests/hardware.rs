//! Hardware filters.

use iris::filter::hardware::globally_excludable;
use iris::filter::pattern::{BinOp, FlatPattern, Predicate, Value};
use iris::protocols::SessionProto;

fn udp_ne_port(field: &str, value: u64) -> Predicate {
    Predicate::Binary {
        protocol: SessionProto::Udp,
        field: field.to_string(),
        op: BinOp::Ne,
        value: Value::Int(value),
    }
}

fn udp_eq_port(field: &str, value: u64) -> Predicate {
    Predicate::Binary {
        protocol: SessionProto::Udp,
        field: field.to_string(),
        op: BinOp::Eq,
        value: Value::Int(value),
    }
}

#[test]
fn excludable_alone_is_safe() {
    // "udp and udp.src_port != 1234 and udp.dst_port != 1234" is the
    // only disjunct: nothing else in the filter could accept port 1234,
    // so it's safe to redirect it in hardware.
    let excluding = FlatPattern {
        predicates: vec![
            Predicate::Unary {
                protocol: SessionProto::Udp,
            },
            udp_ne_port("src_port", 1234),
            udp_ne_port("dst_port", 1234),
        ],
        as_str: None,
    };
    let excl_pred = udp_eq_port("dst_port", 1234);
    assert!(globally_excludable(&excl_pred, &[excluding]));
}

#[test]
fn bare_protocol_sibling_blocks_exclusion() {
    // "udp and udp.port != 1234" alongside a bare "udp" disjunct: the
    // bare pattern accepts port 1234 too, so it must NOT be dropped in
    // hardware even though one disjunct excludes it.
    let excluding = FlatPattern {
        predicates: vec![
            Predicate::Unary {
                protocol: SessionProto::Udp,
            },
            udp_ne_port("src_port", 1234),
            udp_ne_port("dst_port", 1234),
        ],
        as_str: None,
    };
    let bare_udp = FlatPattern {
        predicates: vec![Predicate::Unary {
            protocol: SessionProto::Udp,
        }],
        as_str: None,
    };
    let excl_pred = udp_eq_port("dst_port", 1234);
    assert!(!globally_excludable(&excl_pred, &[excluding, bare_udp]));
}

#[test]
fn disjoint_protocol_sibling_is_safe() {
    // "tcp" as a sibling disjunct can never match a udp-specific
    // exclusion, so it shouldn't block hardware-dropping the port.
    let excluding = FlatPattern {
        predicates: vec![
            Predicate::Unary {
                protocol: SessionProto::Udp,
            },
            udp_ne_port("src_port", 1234),
            udp_ne_port("dst_port", 1234),
        ],
        as_str: None,
    };
    let tcp_only = FlatPattern {
        predicates: vec![Predicate::Unary {
            protocol: SessionProto::Tcp,
        }],
        as_str: None,
    };
    let excl_pred = udp_eq_port("dst_port", 1234);
    assert!(globally_excludable(&excl_pred, &[excluding, tcp_only]));
}

#[test]
fn sibling_excluding_different_value_blocks_exclusion() {
    // A sibling that excludes a *different* port (5246) doesn't
    // restrict 1234 at all, so it would still accept port 1234 traffic
    // -- must not be dropped in hardware.
    let excluding = FlatPattern {
        predicates: vec![
            Predicate::Unary {
                protocol: SessionProto::Udp,
            },
            udp_ne_port("src_port", 1234),
            udp_ne_port("dst_port", 1234),
        ],
        as_str: None,
    };
    let other_exclusion = FlatPattern {
        predicates: vec![
            Predicate::Unary {
                protocol: SessionProto::Udp,
            },
            udp_ne_port("src_port", 5246),
            udp_ne_port("dst_port", 5246),
        ],
        as_str: None,
    };
    let excl_pred = udp_eq_port("dst_port", 1234);
    assert!(!globally_excludable(
        &excl_pred,
        &[excluding, other_exclusion]
    ));
}

#[test]
fn sibling_excluding_same_value_is_safe() {
    // A sibling that excludes the *same* port is consistent -- both
    // disjuncts agree port 1234 should never reach software, so it's
    // still safe to drop in hardware.
    let excluding = FlatPattern {
        predicates: vec![
            Predicate::Unary {
                protocol: SessionProto::Udp,
            },
            udp_ne_port("src_port", 1234),
            udp_ne_port("dst_port", 1234),
        ],
        as_str: None,
    };
    let other_excluding_same = FlatPattern {
        predicates: vec![
            Predicate::Unary {
                protocol: SessionProto::Udp,
            },
            udp_ne_port("dst_port", 1234),
        ],
        as_str: None,
    };
    let excl_pred = udp_eq_port("dst_port", 1234);
    assert!(globally_excludable(
        &excl_pred,
        &[excluding, other_excluding_same]
    ));
}
