//! From annotations to a plan for processing connections.

use iris::compiler::codegen::{
    callback_requires_filter, gen_state_filters, Condition, KnownLevels, NodePred, PNode, PTree,
    PatternLevel, StateTree, Statement,
};
use iris::compiler::decoder::{Draft, SubscriptionDecoder};
use iris::compiler::filters::{fil_datatypes_to_levels, find_datatype_level};
use iris::compiler::groups::RawInputs;
use iris::compiler::input::{
    CallbackFnSpec, CallbackGroupFnSpec, CallbackGroupSpec, ConstrType, DatatypeFnSpec,
    DatatypeSpec, FilterFnSpec, FilterGroupFnSpec, FilterGroupSpec, FnDecl, FnReturn, ParsedInput,
};
use iris::compiler::levels::sort_levels;
use iris::compiler::names::{add_name, has_name, is_part, name_less};
use iris::compiler::updates::{is_tracked_type, TrackedKind};
use iris::compiler::DecodeError;
use iris::conntrack::conn_state::{LayerState, StateTransition};
use iris::filter::pattern::{FlatPattern, Predicate};
use iris::protocols::SessionProto;

fn func(name: &str, datatypes: &[&str], returns: FnReturn) -> FnDecl {
    FnDecl {
        name: name.into(),
        datatypes: datatypes.iter().map(|d| d.to_string()).collect(),
        returns,
    }
}

fn datatype(name: &str, level: Option<StateTransition>, filtered: bool) -> ParsedInput {
    ParsedInput::Datatype(DatatypeSpec { level, name: name.into(), expl_parsers: vec![], filtered })
}

fn datatype_fn(group: &str, name: &str, datatypes: &[&str], level: StateTransition) -> ParsedInput {
    ParsedInput::DatatypeFn(DatatypeFnSpec {
        group_name: group.into(),
        func: func(name, datatypes, FnReturn::Nothing),
        level: vec![level],
    })
}

fn filter_group(name: &str) -> ParsedInput {
    ParsedInput::FilterGroup(FilterGroupSpec { level: None, name: name.into(), expl_parsers: vec![] })
}

fn filter_group_fn(
    group: &str,
    name: &str,
    datatypes: &[&str],
    level: Vec<StateTransition>,
) -> ParsedInput {
    ParsedInput::FilterGroupFn(FilterGroupFnSpec {
        level,
        group_name: group.into(),
        func: func(name, datatypes, FnReturn::FilterResult),
    })
}

fn callback(
    name: &str,
    filter: &str,
    datatypes: &[&str],
    level: Vec<StateTransition>,
) -> ParsedInput {
    ParsedInput::Callback(CallbackFnSpec {
        filter: filter.into(),
        level,
        func: func(name, datatypes, FnReturn::Nothing),
        expl_parsers: vec![],
    })
}

fn callback_group(name: &str, filter: &str) -> ParsedInput {
    ParsedInput::CallbackGroup(CallbackGroupSpec {
        filter: filter.into(),
        level: None,
        name: name.into(),
        expl_parsers: vec!["dns".into()],
    })
}

fn callback_group_fn(
    group: &str,
    name: &str,
    datatypes: &[&str],
    level: Vec<StateTransition>,
) -> ParsedInput {
    ParsedInput::CallbackGroupFn(CallbackGroupFnSpec {
        level,
        group_name: group.into(),
        func: func(name, datatypes, FnReturn::Bool),
    })
}

fn unary(protocol: SessionProto) -> Predicate {
    Predicate::Unary { protocol }
}

fn custom(name: &str) -> Predicate {
    Predicate::Custom { name: name.into() }
}

fn pattern(predicates: Vec<Predicate>) -> FlatPattern {
    FlatPattern { predicates, as_str: Some("text".into()) }
}

#[test]
fn test_filter_parse_basic() {
    let inputs = vec![
        filter_group("MyGroup"),
        filter_group_fn("MyGroup", "update", &["L4Pdu"], vec![StateTransition::InL4Conn]),
        filter_group_fn("MyGroup", "on_tls", &["TlsHandshake"], vec![]),
        datatype("L4Pdu", Some(StateTransition::Packet), false),
        datatype("TlsHandshake", Some(StateTransition::L7EndHdrs), false),
        datatype("ConnRecord", None, false),
        datatype_fn("ConnRecord", "update", &["L4Pdu"], StateTransition::InL4Conn),
        callback(
            "my_cb",
            "ipv4 and tls and MyGroup",
            &["ConnRecord", "TlsHandshake"],
            vec![StateTransition::InL4Conn],
        ),
    ];
    let draft = Draft::decode(&inputs).unwrap();
    let patterns = vec![vec![pattern(vec![
        unary(SessionProto::Ipv4),
        unary(SessionProto::Tcp),
        unary(SessionProto::Tls),
        custom("MyGroup"),
    ])]];
    let decoder = SubscriptionDecoder::new(draft, patterns).unwrap();
    assert!(decoder.custom_preds.len() == 1);
    let levels: Vec<StateTransition> =
        sort_levels(&decoder.custom_preds[0].levels.iter().flatten().copied().collect());
    assert!(
        levels.len() == 3
            && levels.contains(&StateTransition::Packet)
            && levels.contains(&StateTransition::InL4Conn)
            && levels.contains(&StateTransition::L7EndHdrs)
    );
    let datatypes = &decoder.subscriptions[0].callbacks[0].datatypes;
    assert!(
        datatypes.len() == 2
            && datatypes.iter().any(|dt| dt.updates == vec![StateTransition::InL4Conn])
            && datatypes.iter().any(|dt| dt.updates == vec![StateTransition::L7EndHdrs])
    );
    assert!(decoder.updates.iter().filter(|u| !u.is_empty()).count() == 1);
    let entr = &decoder.updates[StateTransition::InL4Conn.as_usize()];
    assert!(entr.len() == 3, "Actual len: {} (value: {:?}", entr.len(), entr);
    assert_eq!(decoder.parsers, vec!["tls".to_string()]);
    // The text of the pattern is kept only for callbacks that take it.
    assert!(decoder.subscriptions[0].patterns.as_ref().unwrap()[0].as_str.is_none());
}

/// Callbacks, filters, and datatypes whose names deliberately do not sort in declaration
/// order.
fn determinism_inputs() -> Vec<ParsedInput> {
    vec![
        datatype("L4Pdu", Some(StateTransition::Packet), false),
        datatype("TlsHandshake", Some(StateTransition::L7EndHdrs), false),
        datatype("DnsTransaction", Some(StateTransition::L7EndHdrs), false),
        datatype("ConnRecord", None, true),
        datatype_fn("ConnRecord", "update", &["L4Pdu"], StateTransition::InL4Conn),
        filter_group("DropHighVolSess"),
        filter_group_fn(
            "DropHighVolSess",
            "on_session",
            &["TlsHandshake"],
            vec![StateTransition::L7EndHdrs],
        ),
        filter_group_fn(
            "DropHighVolSess",
            "on_dns",
            &["DnsTransaction"],
            vec![StateTransition::L7EndHdrs],
        ),
        filter_group("AConnFilter"),
        filter_group_fn("AConnFilter", "update", &["L4Pdu"], vec![StateTransition::InL4Conn]),
        filter_group_fn("AConnFilter", "on_conn", &["L4Pdu"], vec![]),
        callback("z_tls_cb", "tls and AConnFilter and DropHighVolSess", &["TlsHandshake"], vec![]),
        callback("m_dns_cb", "dns and DropHighVolSess", &["DnsTransaction"], vec![]),
        callback(
            "a_conn_cb",
            "ipv4 and tcp.port = 443 and AConnFilter",
            &["ConnRecord"],
            vec![StateTransition::L4Terminated],
        ),
    ]
}

/// Everything the code generator derives from the decoder, in the order it would be emitted.
fn decoder_fingerprint(inputs: &Vec<ParsedInput>) -> String {
    let draft = Draft::decode(inputs).unwrap();
    let patterns = vec![
        vec![pattern(vec![unary(SessionProto::Ipv4), custom("AConnFilter")])],
        vec![pattern(vec![unary(SessionProto::Dns), custom("DropHighVolSess")])],
        vec![pattern(vec![
            unary(SessionProto::Tls),
            custom("AConnFilter"),
            custom("DropHighVolSess"),
        ])],
    ];
    let decoder = SubscriptionDecoder::new(draft, patterns).unwrap();
    let mut out = String::new();
    out.push_str(&format!("parsers: {:?}\n", decoder.parsers));
    out.push_str(&format!("filtered: {:?}\n", decoder.filtered_datatypes));
    out.push_str(&format!("kept: {:?}\n", decoder.tracked_types));
    for pred in &decoder.custom_preds {
        out.push_str(&format!("custom_pred: {:?}\n", pred));
    }
    for spec in &decoder.subscriptions {
        out.push_str(&format!("sub: {} [{}]\n", spec.as_str, spec.filter));
        for cb in &spec.callbacks {
            out.push_str(&format!("  cb: {} {:?} {}\n", cb.as_str, cb.expl_level, cb.invoke_once));
        }
    }
    for (level, inps) in decoder.updates.iter().enumerate() {
        let names: Vec<String> = inps.iter().map(|i| i.name().to_string()).collect();
        out.push_str(&format!("update {:?}: {:?}\n", level, names));
    }
    out
}

#[test]
fn test_decoder_deterministic() {
    let inputs = determinism_inputs();
    let expected = decoder_fingerprint(&inputs);
    for i in 1..5 {
        let actual = decoder_fingerprint(&inputs);
        assert_eq!(expected, actual, "Decoder output is not deterministic (iteration {})", i);
    }
    // Nor does it depend on the order in which groups are declared.
    let mut inputs = determinism_inputs();
    inputs.reverse();
    inputs[3..9].reverse();
    inputs[9..].reverse();
    assert_eq!(expected, decoder_fingerprint(&inputs));
    assert!(expected.contains("sub: a_conn_cb"));
    assert!(expected.find("sub: a_conn_cb") < expected.find("sub: m_dns_cb"));
    assert!(expected.find("sub: m_dns_cb") < expected.find("sub: z_tls_cb"));
    assert!(expected.contains("filtered: [\"ConnRecord\"]"));
    assert!(expected.contains("cb: z_tls_cb None true"));
    assert!(expected.contains("cb: m_dns_cb None false"));
}

fn decode_error(inputs: Vec<ParsedInput>) -> DecodeError {
    Draft::decode(&inputs).err().unwrap()
}

#[test]
fn each_fault_of_annotations_is_reported() {
    let l = StateTransition::L7EndHdrs;
    let cb = |name| callback(name, "tls", &["L4Pdu"], vec![]);
    assert_eq!(decode_error(vec![cb("a"), cb("a")]), DecodeError::CallbackDefinedTwice);
    assert_eq!(decode_error(vec![filter_group("F")]), DecodeError::MissingGroup);
    assert_eq!(
        decode_error(vec![
            filter_group_fn("F", "a", &[], vec![l]),
            filter_group_fn("F", "b", &[], vec![l]),
        ]),
        DecodeError::MissingFilterGroup
    );
    let alone = ParsedInput::Filter(FilterFnSpec {
        func: func("F", &[], FnReturn::FilterResult),
        level: vec![l],
        expl_parsers: vec![],
    });
    assert_eq!(decode_error(vec![alone, filter_group("F")]), DecodeError::MismatchedGroups);
    let f = |datatypes: &[&str]| {
        ParsedInput::Filter(FilterFnSpec {
            func: func("F", datatypes, FnReturn::FilterResult),
            level: vec![],
            expl_parsers: vec![],
        })
    };
    assert_eq!(decode_error(vec![f(&["Nothing"])]), DecodeError::UnknownDatatype);
    let method = |level| datatype_fn("D", "update", &["L4Pdu"], level);
    assert_eq!(decode_error(vec![f(&["D"]), method(l)]), DecodeError::MissingDatatypeDecl);
    assert_eq!(
        decode_error(vec![f(&["D"]), datatype("D", None, false)]),
        DecodeError::MissingDatatypeFn
    );
    assert_eq!(
        decode_error(vec![
            f(&["D"]),
            datatype("D", None, false),
            ParsedInput::DatatypeFn(DatatypeFnSpec {
                group_name: "D".into(),
                func: func("update", &[], FnReturn::Nothing),
                level: vec![l, StateTransition::InL4Conn],
            }),
        ]),
        DecodeError::AmbiguousLevel
    );
    assert_eq!(decode_error(vec![f(&["Session", "SessionProto"])]), DecodeError::MixedLevels);
    let streaming = || datatype("D", Some(StateTransition::InL4Conn), false);
    assert_eq!(decode_error(vec![f(&["D"]), streaming()]), DecodeError::FilterLevelRequired);
    assert_eq!(
        decode_error(vec![callback_group_fn("G", "update", &["L4Pdu"], vec![])]),
        DecodeError::MissingCallback
    );
    assert_eq!(
        decode_error(vec![callback("G", "tls", &[], vec![]), callback_group("G", "tls")]),
        DecodeError::ExtraCallback
    );
    assert_eq!(
        decode_error(vec![streaming(), callback("a", "tls", &["D"], vec![])]),
        DecodeError::CallbackLevelRequired
    );
    assert_eq!(
        decode_error(vec![
            datatype("D", Some(StateTransition::L4Terminated), false),
            callback("a", "tls", &["D"], vec![l]),
        ]),
        DecodeError::TerminatedLevel
    );
    let finish = |inputs: Vec<ParsedInput>, patterns| {
        SubscriptionDecoder::new(Draft::decode(&inputs).unwrap(), patterns).err().unwrap()
    };
    assert_eq!(finish(vec![], vec![]), DecodeError::NoCallbacks);
    assert_eq!(
        finish(vec![callback_group("G", "tls")], vec![vec![]]),
        DecodeError::EmptyCallbackGroup
    );
    assert_eq!(
        finish(
            vec![
                filter_group("F"),
                filter_group_fn("F", "update", &["L4Pdu"], vec![StateTransition::InL4Conn]),
                callback_group("G", "F"),
                callback_group_fn("G", "update", &["L4Pdu"], vec![]),
            ],
            vec![vec![pattern(vec![custom("F")])]]
        ),
        DecodeError::GroupedInvokeOnce
    );
}

#[test]
fn callbacks_are_split_by_level() {
    let inputs = vec![
        callback_group("G", "tls"),
        callback_group_fn(
            "G",
            "update",
            &["L4Pdu", "FilterStr"],
            vec![StateTransition::L4Terminated, StateTransition::InL4Conn],
        ),
    ];
    let draft = Draft::decode(&inputs).unwrap();
    let cbs = &draft.subscriptions[0].callbacks;
    assert_eq!(cbs.len(), 2);
    assert_eq!(cbs[0].expl_level, Some(StateTransition::InL4Conn));
    assert_eq!(cbs[1].expl_level, Some(StateTransition::L4Terminated));
    assert_eq!((cbs[0].as_str.as_str(), cbs[0].subscription_id.as_str()), ("G::update", "G"));
    assert!(cbs[0].must_deliver);
    assert_eq!(draft.parsers, vec!["dns".to_string()]);
    let decoder =
        SubscriptionDecoder::new(draft, vec![vec![pattern(vec![unary(SessionProto::Tls)])]]).unwrap();
    assert_eq!(decoder.parsers, vec!["dns".to_string(), "tls".to_string()]);
    let kept = decoder.subscriptions[0].patterns.as_ref().unwrap();
    assert_eq!(kept[0].as_str.as_deref(), Some("text"));
    assert_eq!(decoder.tracked_types.len(), 1);
    assert_eq!(decoder.tracked_types[0].kind, TrackedKind::StreamCallback);
    // Datatypes that nothing takes are left out.
    let names: Vec<&str> = decoder.datatypes_raw.iter().map(|g| g.name.as_str()).collect();
    assert_eq!(names, vec!["FilterStr", "L4Pdu"]);
}

#[test]
fn levels_of_datatypes_are_inferred() {
    let raw = RawInputs::parse_raw(&vec![
        datatype("D", None, false),
        datatype_fn("D", "update", &["L4Pdu"], StateTransition::InL4Conn),
    ])
    .unwrap();
    assert_eq!(find_datatype_level(&raw.datatypes, "D"), Ok(StateTransition::InL4Conn));
    assert_eq!(find_datatype_level(&raw.datatypes, "Session"), Ok(StateTransition::L7EndHdrs));
    assert_eq!(find_datatype_level(&raw.datatypes, "E"), Err(DecodeError::UnknownDatatype));
    assert_eq!(
        fil_datatypes_to_levels(&raw.datatypes, &vec!["L4Pdu".into(), "CoreId".into()]),
        Ok(vec![StateTransition::Packet])
    );
}

#[test]
fn only_what_recurs_or_has_several_functions_is_kept() {
    assert!(is_tracked_type(&vec![datatype("D", Some(StateTransition::L7EndHdrs), false)]).is_none());
    let constructor = ParsedInput::DatatypeFn(DatatypeFnSpec {
        group_name: "D".into(),
        func: func("from_session", &["Session"], FnReturn::Constructor(ConstrType::OptRef)),
        level: vec![StateTransition::L7EndHdrs],
    });
    assert!(is_tracked_type(&vec![datatype("D", None, false), constructor]).is_none());
    let kept = is_tracked_type(&vec![
        datatype("D", None, true),
        datatype_fn("D", "update", &[], StateTransition::L7EndHdrs),
    ])
    .unwrap();
    assert_eq!((kept.kind, kept.name.as_str()), (TrackedKind::Datatype(true), "D"));
    let kept =
        is_tracked_type(&vec![callback("a", "", &[], vec![StateTransition::InL4Conn])]).unwrap();
    assert_eq!(kept.kind, TrackedKind::StatelessCallback);
}

#[test]
fn names_are_kept_in_alphabetical_order() {
    assert!(name_less("a", "b") && name_less("a", "ab") && name_less("", "a"));
    assert!(!name_less("b", "a") && !name_less("a", "a") && name_less("Z", "a"));
    let mut names = vec![];
    for n in ["tls", "dns", "tls", "http"] {
        add_name(&mut names, n);
    }
    assert_eq!(names, vec!["dns", "http", "tls"]);
    assert!(has_name(&names, "http") && !has_name(&names, "htt"));
    assert!(is_part("ell", "hello") && is_part("", "x") && !is_part("lle", "hello"));
    assert_eq!(
        sort_levels(&vec![
            StateTransition::Packet,
            StateTransition::InL4Conn,
            StateTransition::Packet,
            StateTransition::L4FirstPacket
        ]),
        vec![StateTransition::L4FirstPacket, StateTransition::InL4Conn, StateTransition::Packet]
    );
}

fn node(pred: NodePred, children: Vec<usize>) -> PNode {
    PNode {
        pred,
        children,
        if_else: false,
        has_actions: false,
        is_terminal: false,
        matched: vec![],
        deliver: vec![],
        filtered_datatypes: vec![],
    }
}

const ROOT: NodePred = NodePred::Packet { protocol: SessionProto::Null };

/// Two protocol-only patterns, each with a callback.
fn protocol_only_tree() -> PTree {
    let mut tls = node(NodePred::Service { protocol: SessionProto::Tls }, vec![]);
    tls.deliver = vec![0];
    let mut ssh = node(NodePred::Service { protocol: SessionProto::Ssh }, vec![]);
    ssh.deliver = vec![1];
    ssh.if_else = true;
    PTree { nodes: vec![node(ROOT, vec![1, 2]), tls, ssh] }
}

#[test]
fn protocol_only_pattern_dispatches_on_protocol_not_session() {
    let tree = protocol_only_tree();
    assert!(tree.is_well_formed());
    for tx in [StateTransition::L7OnDisc, StateTransition::L7EndHdrs, StateTransition::L4Terminated] {
        assert_eq!(
            tree.gen_state_filter(tx),
            vec![
                Statement::If(Condition::LastProtocol(SessionProto::Tls)),
                Statement::Deliver { node: 1, subscription: 0 },
                Statement::End,
                Statement::ElseIf(Condition::LastProtocol(SessionProto::Ssh)),
                Statement::Deliver { node: 2, subscription: 1 },
                Statement::End,
            ]
        );
    }
}

#[test]
fn session_field_pattern_still_destructures_the_session() {
    let sni = NodePred::Field { protocol: SessionProto::Tls, session: true, condition: 9 };
    let tree = PTree {
        nodes: vec![
            node(ROOT, vec![1]),
            node(NodePred::Service { protocol: SessionProto::Tls }, vec![2]),
            node(sni, vec![]),
        ],
    };
    assert!(tree.binds_session(1, SessionProto::Tls));
    assert!(!tree.binds_session(1, SessionProto::Ssh));
    assert_eq!(
        tree.gen_state_filter(StateTransition::L4Terminated),
        vec![
            Statement::If(Condition::LastSession(SessionProto::Tls)),
            Statement::If(Condition::Field(9)),
            Statement::End,
            Statement::End,
        ]
    );
    // No session is there before the headers are done.
    assert_eq!(
        tree.gen_state_filter(StateTransition::L7OnDisc)[0],
        Statement::If(Condition::LastProtocol(SessionProto::Tls))
    );
}

#[test]
fn sessions_are_bound_below_states_that_imply_headers() {
    // Below a state that implies headers, sessions may be bound whatever the transition.
    let payload = NodePred::LayerState { l7: true, state: LayerState::Payload, condition: 3 };
    let headers = NodePred::LayerState { l7: true, state: LayerState::Headers, condition: 4 };
    let sni = NodePred::Field { protocol: SessionProto::Tls, session: true, condition: 9 };
    let tree = |state| PTree {
        nodes: vec![
            node(ROOT, vec![1]),
            node(state, vec![2]),
            node(NodePred::Service { protocol: SessionProto::Tls }, vec![3]),
            node(sni, vec![]),
        ],
    };
    let bound = Statement::If(Condition::LastSession(SessionProto::Tls));
    assert!(tree(payload).gen_state_filter(StateTransition::InL4Conn).contains(&bound));
    assert!(!tree(headers).gen_state_filter(StateTransition::InL4Conn).contains(&bound));
}

#[test]
fn callbacks_are_delivered_before_their_test() {
    let mut waiting = node(
        NodePred::LayerState { l7: true, state: LayerState::Headers, condition: 5 },
        vec![],
    );
    waiting.has_actions = true;
    let mut cb = node(NodePred::Callback { subscription: 7 }, vec![3]);
    cb.deliver = vec![7];
    cb.has_actions = true;
    let mut tls = node(NodePred::Service { protocol: SessionProto::Tls }, vec![2]);
    tls.has_actions = true;
    tls.matched = vec![7];
    tls.filtered_datatypes = vec![4];
    let mut root = node(ROOT, vec![1]);
    root.has_actions = true;
    let mut tree = PTree { nodes: vec![root, tls, cb, waiting] };
    assert!(tree.is_well_formed());
    assert_eq!(
        tree.gen_state_filter(StateTransition::L7OnDisc),
        vec![
            Statement::Actions(0),
            Statement::If(Condition::LastProtocol(SessionProto::Tls)),
            Statement::Actions(1),
            Statement::SetActive(7),
            Statement::FilteredData(4),
            Statement::Deliver { node: 2, subscription: 7 },
            Statement::If(Condition::CallbackActive(7)),
            Statement::Actions(2),
            Statement::If(Condition::LayerState(5)),
            Statement::Actions(3),
            Statement::End,
            Statement::End,
            Statement::End,
        ]
    );
    tree.nodes[2].deliver = vec![8];
    assert!(!tree.is_well_formed());
    tree.nodes[2].deliver = vec![];
    tree.nodes[3].has_actions = false;
    assert!(!tree.is_well_formed());
    tree.nodes[3].has_actions = true;
    tree.nodes[2].children = vec![1];
    assert!(!tree.is_well_formed());
}

#[test]
fn packet_filters_return_on_the_first_match() {
    let packet = |protocol| NodePred::Packet { protocol };
    let mut port = node(
        NodePred::Field { protocol: SessionProto::Tcp, session: false, condition: 1 },
        vec![],
    );
    port.is_terminal = true;
    let mut v6 = node(packet(SessionProto::Ipv6), vec![]);
    v6.is_terminal = true;
    let tree = PTree {
        nodes: vec![
            node(ROOT, vec![1, 2]),
            node(packet(SessionProto::Ipv4), vec![3]),
            v6,
            node(packet(SessionProto::Tcp), vec![4, 5]),
            port,
            node(NodePred::Service { protocol: SessionProto::Tls }, vec![]),
        ],
    };
    assert!(tree.is_for_packets());
    assert_eq!(
        tree.gen_packet_filter(),
        vec![
            Statement::If(Condition::ParsesTo(SessionProto::Ipv4)),
            Statement::If(Condition::ParsesTo(SessionProto::Tcp)),
            Statement::If(Condition::Field(1)),
            Statement::ReturnTrue,
            Statement::End,
            Statement::End,
            Statement::End,
            Statement::ElseIf(Condition::ParsesTo(SessionProto::Ipv6)),
            Statement::ReturnTrue,
            Statement::End,
        ]
    );
}

#[test]
fn packet_filters_deliver_nothing() {
    let mut v4 = node(NodePred::Packet { protocol: SessionProto::Ipv4 }, vec![]);
    v4.deliver = vec![1];
    let mut tree = PTree { nodes: vec![node(ROOT, vec![1]), v4] };
    assert!(!tree.is_for_packets());
    tree.nodes[1].deliver = vec![];
    assert!(tree.is_for_packets());
    // The root counts where it decides.
    tree.nodes[0].deliver = vec![1];
    assert!(tree.is_for_packets());
    tree.nodes[0].is_terminal = true;
    assert!(!tree.is_for_packets());
}

#[test]
fn functions_are_generated_for_transitions_of_connections() {
    let trees = vec![
        StateTree { tx: StateTransition::Packet, tree: protocol_only_tree(), filtered: vec![] },
        StateTree {
            tx: StateTransition::L4FirstPacket,
            tree: protocol_only_tree(),
            filtered: vec!["PacketList".to_string()],
        },
        StateTree { tx: StateTransition::InL4Conn, tree: protocol_only_tree(), filtered: vec![] },
    ];
    let fns = gen_state_filters(&trees);
    assert_eq!(fns.len(), 2);
    assert_eq!(fns[0].tx, StateTransition::L4FirstPacket);
    assert_eq!(fns[0].filtered, vec!["PacketList".to_string()]);
    assert!(fns[1].filtered.is_empty());
    assert!(fns[0].with_pdu && fns[0].with_updates);
    assert!(!fns[1].with_pdu && !fns[1].with_updates);
    assert_eq!(fns[0].body, protocol_only_tree().gen_state_filter(StateTransition::L4FirstPacket));
}

#[test]
fn a_filter_is_required_where_something_can_change() {
    let draft = Draft::decode(&vec![callback("a", "tls", &["Session"], vec![])]).unwrap();
    let cb = &draft.subscriptions[0].callbacks[0];
    let tx = StateTransition::InL4Conn;
    let level = |can_skip, can_deliver, callback, filter_preds| {
        vec![PatternLevel { can_skip, can_deliver, callback, filter_preds }]
    };
    assert!(callback_requires_filter(cb, &vec![], StateTransition::L7EndHdrs));
    assert!(!callback_requires_filter(cb, &vec![], tx));
    assert!(callback_requires_filter(cb, &level(false, true, None, vec![]), tx));
    assert!(!callback_requires_filter(cb, &level(true, true, Some(tx), vec![tx]), tx));
    assert!(callback_requires_filter(cb, &level(false, false, Some(tx), vec![]), tx));
    assert!(callback_requires_filter(cb, &level(false, false, None, vec![tx]), tx));
    assert!(!callback_requires_filter(cb, &level(false, false, None, vec![]), tx));
}

#[test]
fn a_filter_is_required_if_any_callback_requires_one() {
    let inputs = vec![
        callback("a", "tls", &["Session"], vec![]),
        callback("b", "tcp", &["Session"], vec![]),
    ];
    let draft = Draft::decode(&inputs).unwrap();
    let pattern = |text: &str| FlatPattern { predicates: vec![], as_str: Some(text.to_string()) };
    let patterns = vec![vec![pattern("tls")], vec![pattern("tcp")]];
    let decoder = SubscriptionDecoder::new(draft, patterns).unwrap();
    // Each subscription keeps its patterns; nobody takes the texts.
    for sub in &decoder.subscriptions {
        let kept = sub.patterns.as_ref().unwrap();
        assert_eq!(kept.len(), 1);
        assert_eq!(kept[0].as_str, None);
    }
    let known = |tx, second: Vec<StateTransition>| {
        let level = |filter_preds| {
            vec![vec![PatternLevel {
                can_skip: false,
                can_deliver: false,
                callback: None,
                filter_preds,
            }]]
        };
        KnownLevels { tx, levels: vec![level(vec![]), level(second)] }
    };
    let tx = StateTransition::L4FirstPacket;
    assert!(!decoder.requires_filter(&known(tx, vec![])));
    assert!(decoder.requires_filter(&known(tx, vec![tx])));
    assert_eq!(
        decoder.filter_levels(&vec![
            known(StateTransition::L4EndHshk, vec![]),
            known(tx, vec![tx]),
            known(StateTransition::L7EndHdrs, vec![]),
            known(StateTransition::Packet, vec![StateTransition::Packet]),
        ]),
        vec![tx, StateTransition::L7EndHdrs]
    );
}

#[test]
fn patterns_keep_their_texts_for_those_who_take_them() {
    let draft = Draft::decode(&vec![callback("a", "tls", &["Session", "FilterStr"], vec![])]).unwrap();
    let pattern = FlatPattern { predicates: vec![], as_str: Some("tls".to_string()) };
    let decoder = SubscriptionDecoder::new(draft, vec![vec![pattern]]).unwrap();
    let kept = decoder.subscriptions[0].patterns.as_ref().unwrap();
    assert_eq!(kept[0].as_str, Some("tls".to_string()));
}

#[test]
fn copies_of_annotations_keep_what_functions_return() {
    let draft = Draft::decode(&vec![callback("a", "tls", &["Session"], vec![])]).unwrap();
    for group in &draft.cbs {
        for inp in &group.inputs {
            let copy = inp.copy();
            assert_eq!(copy.func().unwrap().returns, inp.func().unwrap().returns);
        }
    }
}
