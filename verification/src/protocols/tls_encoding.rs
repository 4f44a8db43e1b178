//! What is stored of TLS messages, in terms of how they are written.

use crate::protocols::tls::{
    bare_client_hello, bare_server_hello, client_hello_of, client_key_shares, key_shares,
    message_at, message_step, or_empty, parse_sslv2_client_hello, probe_result, read_client_kx,
    read_server_kx, record_step, records_step, segment_step, server_hello_of, shares_view,
    sslv2_hello, texts_view, triples, v3_suites, with_client_extensions,
    with_handshake_message, with_server_extensions, with_sslv2_hello, ClientHello,
    ClientKeyExchange, ServerHello, ServerKeyExchange, SslV2ClientHello, SslV2Error,
    SslV2Hello, Tls, TlsModel, TlsState, KX_DH, KX_DHE, KX_ECDH, KX_ECDHE, KX_RSA,
};
use crate::protocols::tls_wire::{
    cipher_kx, client_extensions, frame_len, frames_end, handshake_message, named_curve_params,
    record_read,
    server_extensions, string16, ClientHelloFields, ExtensionModel, HandshakeModel, RecordRead,
    ServerHelloFields,
};
use crate::protocols::{ParseResult, ProbeResult};
use crate::text::text_or_hex;
use crate::wire::{be16, be16_bytes, law_be16_is_read_back};
use vstd::prelude::*;

verus! {

/// No extension of the list has this type.
pub open spec fn absent(list: Seq<ExtensionModel>, kind: u16) -> bool {
    forall|j: int| 0 <= j < list.len() ==> (#[trigger] list[j]).kind != kind
}

/// Just one extension of the list has this type: the `i`-th.
pub open spec fn only(list: Seq<ExtensionModel>, i: int, kind: u16) -> bool {
    &&& 0 <= i < list.len()
    &&& list[i].kind == kind
    &&& forall|j: int| 0 <= j < list.len() && j != i ==> (#[trigger] list[j]).kind != kind
}

/// The types of the extensions, in order.
pub open spec fn kinds(list: Seq<ExtensionModel>) -> Seq<u16> {
    Seq::new(list.len(), |i: int| list[i].kind)
}

proof fn lemma_absent_before(list: Seq<ExtensionModel>, kind: u16)
    requires
        list.len() > 0,
        absent(list, kind),
    ensures
        absent(list.drop_last(), kind),
        list.last().kind != kind,
{
    let init = list.drop_last();
    assert forall|j: int| 0 <= j < init.len() implies (#[trigger] init[j]).kind != kind by {
        assert(init[j] == list[j]);
    }
    assert(list[list.len() - 1].kind != kind);
}

proof fn lemma_only_before(list: Seq<ExtensionModel>, i: int, kind: u16)
    requires
        only(list, i, kind),
    ensures
        i == list.len() - 1 ==> absent(list.drop_last(), kind) && list.last() == list[i],
        i < list.len() - 1 ==> only(list.drop_last(), i, kind) && list.last().kind != kind
            && list.drop_last()[i] == list[i],
{
    let init = list.drop_last();
    assert forall|j: int| 0 <= j < init.len() implies #[trigger] init[j] == list[j] by {}
    if i == list.len() - 1 {
        assert(absent(init, kind)) by {
            assert forall|j: int| 0 <= j < init.len() implies (#[trigger] init[j]).kind
                != kind by {
                assert(init[j] == list[j]);
            }
        }
    } else {
        assert(list[list.len() - 1].kind != kind);
        assert(only(init, i, kind)) by {
            assert forall|j: int| 0 <= j < init.len() && j != i implies (#[trigger] init[j]).kind
                != kind by {
                assert(init[j] == list[j]);
            }
        }
    }
}

proof fn lemma_server_fixed(c: ServerHelloFields, list: Seq<ExtensionModel>)
    ensures
        ({
            let h = with_server_extensions(bare_server_hello(c), list);
            &&& h.version == c.version
            &&& h.random == c.random
            &&& h.session_id == or_empty(c.session_id)
            &&& h.cipher_suite == c.cipher
            &&& h.compression_alg == c.compression
            &&& h.extension_list == kinds(list)
            &&& absent(list, 11) ==> h.ec_point_formats.len() == 0
            &&& absent(list, 16) ==> h.alpn_protocol is None
            &&& absent(list, 51) ==> h.key_share is None
            &&& absent(list, 43) ==> h.selected_version is None
        }),
    decreases list.len(),
{
    let h = with_server_extensions(bare_server_hello(c), list);
    if list.len() > 0 {
        lemma_server_fixed(c, list.drop_last());
        assert(h.extension_list =~= kinds(list)) by {
            assert(kinds(list.drop_last()).push(list.last().kind) =~= kinds(list));
        }
        if absent(list, 11) {
            lemma_absent_before(list, 11);
        }
        if absent(list, 16) {
            lemma_absent_before(list, 16);
        }
        if absent(list, 51) {
            lemma_absent_before(list, 51);
        }
        if absent(list, 43) {
            lemma_absent_before(list, 43);
        }
    } else {
        assert(h.extension_list =~= kinds(list));
    }
}

/// The version, the random bytes, the session ID, the cipher suite and the compression method
/// of a ServerHello are stored as they were sent, and its extensions are listed in order,
/// whatever they hold. Nothing is stored of an extension that is not there.
pub proof fn law_server_hello_is_stored(
    c: ServerHelloFields,
    list: Seq<ExtensionModel>,
    h: ServerHello,
)
    requires
        server_extensions(or_empty(c.ext)) == Some(list),
        h@ == server_hello_of(c),
    ensures
        h.version == c.version,
        h.random@ == c.random,
        h.session_id@ == or_empty(c.session_id),
        h.cipher_suite == c.cipher,
        h.compression_alg == c.compression,
        h.extension_list@ == kinds(list),
        absent(list, 11) ==> h.ec_point_formats@.len() == 0,
        absent(list, 16) ==> h.alpn_protocol is None,
        absent(list, 51) ==> h.key_share is None,
        absent(list, 43) ==> h.selected_version is None,
{
    lemma_server_fixed(c, list);
}

/// The version that a server selects (RFC 8446, section 4.2.1) is the one that its only
/// supported_versions extension holds, whatever the version field and the other extensions
/// are.
pub proof fn law_selected_version_is_stored(
    c: ServerHelloFields,
    list: Seq<ExtensionModel>,
    i: int,
    h: ServerHello,
)
    requires
        server_extensions(or_empty(c.ext)) == Some(list),
        h@ == server_hello_of(c),
        only(list, i, 43),
        list[i].words.len() > 0,
    ensures
        h.selected_version == Some(list[i].words[0]),
{
    lemma_selected_version(c, list, i);
}

proof fn lemma_selected_version(c: ServerHelloFields, list: Seq<ExtensionModel>, i: int)
    requires
        only(list, i, 43),
        list[i].words.len() > 0,
    ensures
        with_server_extensions(bare_server_hello(c), list).selected_version == Some(
            list[i].words[0],
        ),
    decreases list.len(),
{
    lemma_only_before(list, i, 43);
    if i < list.len() - 1 {
        lemma_selected_version(c, list.drop_last(), i);
    }
}

/// The application protocol that a server selects is the first one that its only extension
/// for it names.
pub proof fn law_selected_protocol_is_stored(
    c: ServerHelloFields,
    list: Seq<ExtensionModel>,
    i: int,
    h: ServerHello,
)
    requires
        server_extensions(or_empty(c.ext)) == Some(list),
        h@ == server_hello_of(c),
        only(list, i, 16),
        list[i].bytes.len() > 0,
    ensures
        h.alpn_protocol matches Some(t) && t@ == text_or_hex(list[i].bytes[0]),
{
    lemma_selected_protocol(c, list, i);
}

proof fn lemma_selected_protocol(c: ServerHelloFields, list: Seq<ExtensionModel>, i: int)
    requires
        only(list, i, 16),
        list[i].bytes.len() > 0,
    ensures
        with_server_extensions(bare_server_hello(c), list).alpn_protocol == Some(
            text_or_hex(list[i].bytes[0]),
        ),
    decreases list.len(),
{
    lemma_only_before(list, i, 16);
    if i < list.len() - 1 {
        lemma_selected_protocol(c, list.drop_last(), i);
    }
}

/// A key share: its group, its length and its bytes.
pub open spec fn share_bytes(group: u16, data: Seq<u8>) -> Seq<u8> {
    be16_bytes(group as int) + be16_bytes(data.len() as int) + data
}

/// Key shares, one after the other.
pub open spec fn share_list(shares: Seq<(u16, Seq<u8>)>) -> Seq<u8>
    decreases shares.len(),
{
    if shares.len() == 0 {
        Seq::empty()
    } else {
        share_bytes(shares[0].0, shares[0].1) + share_list(shares.skip(1))
    }
}

/// Key shares are read back as they were written.
pub proof fn law_key_shares_are_read_back(shares: Seq<(u16, Seq<u8>)>)
    requires
        forall|i: int| 0 <= i < shares.len() ==> (#[trigger] shares[i]).1.len() < 0x1_0000,
    ensures
        key_shares(share_list(shares)) == shares,
    decreases shares.len(),
{
    if shares.len() == 0 {
        assert(shares =~= Seq::empty());
    } else {
        let (group, data) = shares[0];
        let rest = share_list(shares.skip(1));
        let s = share_list(shares);
        assert forall|i: int| 0 <= i < shares.skip(1).len() implies (
        #[trigger] shares.skip(1)[i]).1.len() < 0x1_0000 by {
            assert(shares.skip(1)[i] == shares[i + 1]);
        }
        law_key_shares_are_read_back(shares.skip(1));
        law_be16_is_read_back(
            Seq::empty(),
            group as int,
            be16_bytes(data.len() as int) + data + rest,
        );
        assert(s =~= Seq::<u8>::empty() + be16_bytes(group as int) + (be16_bytes(
            data.len() as int,
        ) + data + rest));
        law_be16_is_read_back(be16_bytes(group as int), data.len() as int, data + rest);
        assert(s =~= be16_bytes(group as int) + be16_bytes(data.len() as int) + (data + rest));
        let end = 4int + data.len();
        assert(s.subrange(4, end) =~= data);
        assert(s.skip(end) =~= rest);
        assert(seq![shares[0]] + shares.skip(1) =~= shares);
    }
}

/// The key share of a server is the one that its only key_share extension holds.
pub proof fn law_server_key_share_is_stored(
    c: ServerHelloFields,
    list: Seq<ExtensionModel>,
    i: int,
    group: u16,
    data: Seq<u8>,
    h: ServerHello,
)
    requires
        server_extensions(or_empty(c.ext)) == Some(list),
        h@ == server_hello_of(c),
        only(list, i, 51),
        data.len() < 0x1_0000,
        list[i].bytes == seq![share_bytes(group, data)],
    ensures
        h.key_share matches Some(k) && k.group == group && k.kx_data@ == data,
{
    let shares = seq![(group, data)];
    law_key_shares_are_read_back(shares);
    assert(shares.skip(1) =~= Seq::empty());
    reveal_with_fuel(share_list, 2);
    assert(share_list(shares) =~= share_bytes(group, data));
    lemma_server_key_share(c, list, i, shares);
}

proof fn lemma_server_key_share(
    c: ServerHelloFields,
    list: Seq<ExtensionModel>,
    i: int,
    shares: Seq<(u16, Seq<u8>)>,
)
    requires
        only(list, i, 51),
        list[i].bytes.len() > 0,
        key_shares(list[i].bytes[0]) == shares,
        shares.len() > 0,
    ensures
        with_server_extensions(bare_server_hello(c), list).key_share == Some(shares[0]),
    decreases list.len(),
{
    lemma_only_before(list, i, 51);
    if i < list.len() - 1 {
        lemma_server_key_share(c, list.drop_last(), i, shares);
    }
}

/// The point formats of a server are those that its only extension for them holds.
pub proof fn law_server_point_formats_are_stored(
    c: ServerHelloFields,
    list: Seq<ExtensionModel>,
    i: int,
    formats: Seq<u8>,
    h: ServerHello,
)
    requires
        server_extensions(or_empty(c.ext)) == Some(list),
        h@ == server_hello_of(c),
        only(list, i, 11),
        list[i].bytes == seq![formats],
    ensures
        h.ec_point_formats@ == formats,
{
    lemma_server_point_formats(c, list, i, formats);
}

proof fn lemma_server_point_formats(
    c: ServerHelloFields,
    list: Seq<ExtensionModel>,
    i: int,
    formats: Seq<u8>,
)
    requires
        only(list, i, 11),
        list[i].bytes == seq![formats],
    ensures
        with_server_extensions(bare_server_hello(c), list).ec_point_formats == formats,
    decreases list.len(),
{
    lemma_only_before(list, i, 11);
    if i < list.len() - 1 {
        lemma_server_point_formats(c, list.drop_last(), i, formats);
    }
}

proof fn lemma_client_fixed(c: ClientHelloFields, list: Seq<ExtensionModel>)
    ensures
        ({
            let h = with_client_extensions(bare_client_hello(c), list);
            &&& h.version == c.version
            &&& h.random == c.random
            &&& h.session_id == or_empty(c.session_id)
            &&& h.cipher_suites == c.ciphers
            &&& h.compression_algs == c.comp
            &&& h.extension_list == kinds(list)
            &&& absent(list, 0) ==> h.server_name is None
            &&& absent(list, 10) ==> h.supported_groups.len() == 0
            &&& absent(list, 11) ==> h.ec_point_formats.len() == 0
            &&& absent(list, 13) ==> h.signature_algs.len() == 0
            &&& absent(list, 16) ==> h.alpn_protocols.len() == 0
            &&& absent(list, 51) ==> h.key_shares.len() == 0
            &&& absent(list, 43) ==> h.supported_versions.len() == 0
        }),
    decreases list.len(),
{
    let h = with_client_extensions(bare_client_hello(c), list);
    if list.len() > 0 {
        lemma_client_fixed(c, list.drop_last());
        assert(h.extension_list =~= kinds(list)) by {
            assert(kinds(list.drop_last()).push(list.last().kind) =~= kinds(list));
        }
        if absent(list, 0) {
            lemma_absent_before(list, 0);
        }
        if absent(list, 10) {
            lemma_absent_before(list, 10);
        }
        if absent(list, 11) {
            lemma_absent_before(list, 11);
        }
        if absent(list, 13) {
            lemma_absent_before(list, 13);
        }
        if absent(list, 16) {
            lemma_absent_before(list, 16);
        }
        if absent(list, 51) {
            lemma_absent_before(list, 51);
        }
        if absent(list, 43) {
            lemma_absent_before(list, 43);
        }
    } else {
        assert(h.extension_list =~= kinds(list));
    }
}

/// The version, the random bytes, the session ID, the cipher suites and the compression
/// methods of a ClientHello are stored as they were sent, and its extensions are listed in
/// order, whatever they hold. Nothing is stored of an extension that is not there.
pub proof fn law_client_hello_is_stored(
    c: ClientHelloFields,
    list: Seq<ExtensionModel>,
    h: ClientHello,
)
    requires
        client_extensions(or_empty(c.ext)) == Some(list),
        h@ == client_hello_of(c),
    ensures
        h.version == c.version,
        h.random@ == c.random,
        h.session_id@ == or_empty(c.session_id),
        h.cipher_suites@ == c.ciphers,
        h.compression_algs@ == c.comp,
        h.extension_list@ == kinds(list),
        absent(list, 0) ==> h.server_name is None,
        absent(list, 10) ==> h.supported_groups@.len() == 0,
        absent(list, 11) ==> h.ec_point_formats@.len() == 0,
        absent(list, 13) ==> h.signature_algs@.len() == 0,
        absent(list, 16) ==> h.alpn_protocols@.len() == 0,
        absent(list, 51) ==> h.key_shares@.len() == 0,
        absent(list, 43) ==> h.supported_versions@.len() == 0,
{
    lemma_client_fixed(c, list);
    assert(h@.alpn_protocols.len() == h.alpn_protocols@.len());
    assert(h@.key_shares.len() == h.key_shares@.len());
}

/// A hello whose extensions cannot be read is stored without them.
pub proof fn law_unreadable_extensions_are_left_out(
    c: ClientHelloFields,
    h: ClientHello,
    d: ServerHelloFields,
    g: ServerHello,
)
    requires
        client_extensions(or_empty(c.ext)) is None,
        h@ == client_hello_of(c),
        server_extensions(or_empty(d.ext)) is None,
        g@ == server_hello_of(d),
    ensures
        h.version == c.version && h.random@ == c.random && h.cipher_suites@ == c.ciphers,
        h.extension_list@.len() == 0 && h.server_name is None,
        g.version == d.version && g.random@ == d.random && g.cipher_suite == d.cipher,
        g.extension_list@.len() == 0 && g.selected_version is None && g.key_share is None,
{
}

proof fn lemma_client_only(c: ClientHelloFields, list: Seq<ExtensionModel>, i: int, kind: u16)
    requires
        only(list, i, kind),
    ensures
        ({
            let h = with_client_extensions(bare_client_hello(c), list);
            let e = list[i];
            let first = if e.bytes.len() > 0 {
                e.bytes[0]
            } else {
                Seq::empty()
            };
            &&& kind == 0 && e.bytes.len() > 0 ==> h.server_name == Some(text_or_hex(e.bytes[0]))
            &&& kind == 10 ==> h.supported_groups == e.words
            &&& kind == 11 ==> h.ec_point_formats == first
            &&& kind == 13 ==> h.signature_algs == e.words
            &&& kind == 16 ==> h.alpn_protocols == e.bytes.map_values(
                |b: Seq<u8>| text_or_hex(b),
            )
            &&& kind == 51 ==> h.key_shares == client_key_shares(first)
            &&& kind == 43 ==> h.supported_versions == e.words
        }),
    decreases list.len(),
{
    lemma_only_before(list, i, kind);
    let init = list.drop_last();
    if i < list.len() - 1 {
        lemma_client_only(c, init, i, kind);
    } else {
        lemma_client_fixed(c, init);
        let before = with_client_extensions(bare_client_hello(c), init);
        let h = with_client_extensions(bare_client_hello(c), list);
        let texts = list[i].bytes.map_values(|b: Seq<u8>| text_or_hex(b));
        if kind == 16 {
            assert(before.alpn_protocols.len() == 0);
            assert(before.alpn_protocols + texts =~= texts);
            assert(h.alpn_protocols =~= texts);
        }
    }
}

/// Of each extension of a ClientHello that is there just once, what it holds is stored under
/// its own name: the server name, the groups, the point formats, the signature algorithms,
/// the application protocols in order, and the versions.
pub proof fn law_client_extension_is_stored(
    c: ClientHelloFields,
    list: Seq<ExtensionModel>,
    i: int,
    kind: u16,
    h: ClientHello,
)
    requires
        client_extensions(or_empty(c.ext)) == Some(list),
        h@ == client_hello_of(c),
        only(list, i, kind),
    ensures
        kind == 0 && list[i].bytes.len() > 0 ==> (h.server_name matches Some(t) && t@
            == text_or_hex(list[i].bytes[0])),
        kind == 10 ==> h.supported_groups@ == list[i].words,
        kind == 11 && list[i].bytes.len() > 0 ==> h.ec_point_formats@ == list[i].bytes[0],
        kind == 13 ==> h.signature_algs@ == list[i].words,
        kind == 16 ==> h.alpn_protocols@.len() == list[i].bytes.len() && forall|k: int|
            0 <= k < list[i].bytes.len() ==> (#[trigger] h.alpn_protocols@[k])@ == text_or_hex(
                list[i].bytes[k],
            ),
        kind == 43 ==> h.supported_versions@ == list[i].words,
{
    lemma_client_only(c, list, i, kind);
    if kind == 16 {
        let texts = list[i].bytes.map_values(|b: Seq<u8>| text_or_hex(b));
        assert(texts_view(h.alpn_protocols@) == texts);
        assert forall|k: int| 0 <= k < list[i].bytes.len() implies (
        #[trigger] h.alpn_protocols@[k])@ == text_or_hex(list[i].bytes[k]) by {
            assert(texts_view(h.alpn_protocols@)[k] == texts[k]);
        }
    }
}

/// The key shares of a client are those that its only key_share extension lists, in order.
pub proof fn law_client_key_shares_are_stored(
    c: ClientHelloFields,
    list: Seq<ExtensionModel>,
    i: int,
    shares: Seq<(u16, Seq<u8>)>,
    h: ClientHello,
)
    requires
        client_extensions(or_empty(c.ext)) == Some(list),
        h@ == client_hello_of(c),
        only(list, i, 51),
        forall|k: int| 0 <= k < shares.len() ==> (#[trigger] shares[k]).1.len() < 0x1_0000,
        share_list(shares).len() < 0x1_0000,
        list[i].bytes == seq![be16_bytes(share_list(shares).len() as int) + share_list(shares)],
    ensures
        h.key_shares@.len() == shares.len(),
        forall|k: int|
            0 <= k < shares.len() ==> (#[trigger] h.key_shares@[k]).group == shares[k].0
                && h.key_shares@[k].kx_data@ == shares[k].1,
{
    lemma_client_only(c, list, i, 51);
    law_key_shares_are_read_back(shares);
    let raw = be16_bytes(share_list(shares).len() as int) + share_list(shares);
    assert(raw.skip(2) =~= share_list(shares));
    assert(shares_view(h.key_shares@) == shares);
    assert forall|k: int| 0 <= k < shares.len() implies (#[trigger] h.key_shares@[k]).group
        == shares[k].0 && h.key_shares@[k].kx_data@ == shares[k].1 by {
        assert(shares_view(h.key_shares@)[k] == shares[k]);
    }
}

/// A byte string after its 16-bit length.
pub open spec fn string16_bytes(s: Seq<u8>) -> Seq<u8> {
    be16_bytes(s.len() as int) + s
}

proof fn lemma_string16(before: Seq<u8>, s: Seq<u8>, after: Seq<u8>)
    requires
        s.len() < 0x1_0000,
    ensures
        string16(before + string16_bytes(s) + after, before.len() as int) == Some(s),
{
    let data = before + string16_bytes(s) + after;
    law_be16_is_read_back(before, s.len() as int, s + after);
    assert(data =~= before + be16_bytes(s.len() as int) + (s + after));
    let at = before.len() as int;
    assert(data.subrange(at + 2, at + 2 + s.len()) =~= s);
}

proof fn lemma_dh_bytes(p: Seq<u8>, g: Seq<u8>, y: Seq<u8>, signature: Seq<u8>)
    requires
        p.len() < 0x1_0000 && g.len() < 0x1_0000 && y.len() < 0x1_0000,
    ensures
        ({
            let data = string16_bytes(p) + string16_bytes(g) + string16_bytes(y) + signature;
            &&& string16(data, 0) == Some(p)
            &&& string16(data, 2int + p.len()) == Some(g)
            &&& string16(data, 4int + p.len() + g.len()) == Some(y)
        }),
{
    let a = string16_bytes(p);
    let b = string16_bytes(g);
    let c = string16_bytes(y);
    let data = a + b + c + signature;
    assert(a.len() == 2 + p.len());
    assert(b.len() == 2 + g.len());
    assert(string16(data, 0) == Some(p)) by {
        lemma_string16(Seq::empty(), p, b + c + signature);
        assert(data =~= Seq::<u8>::empty() + a + (b + c + signature));
    }
    assert(string16(data, a.len() as int) == Some(g)) by {
        lemma_string16(a, g, c + signature);
        assert(data =~= a + b + (c + signature));
    }
    assert(string16(data, (a + b).len() as int) == Some(y)) by {
        lemma_string16(a + b, y, signature);
    }
}

proof fn lemma_rsa_bytes(n: Seq<u8>, e: Seq<u8>, signature: Seq<u8>)
    requires
        n.len() < 0x1_0000 && e.len() < 0x1_0000,
    ensures
        ({
            let data = string16_bytes(n) + string16_bytes(e) + signature;
            &&& string16(data, 0) == Some(n)
            &&& string16(data, 2int + n.len()) == Some(e)
        }),
{
    let a = string16_bytes(n);
    let b = string16_bytes(e);
    let data = a + b + signature;
    assert(a.len() == 2 + n.len());
    assert(string16(data, 0) == Some(n)) by {
        lemma_string16(Seq::empty(), n, b + signature);
        assert(data =~= Seq::<u8>::empty() + a + (b + signature));
    }
    assert(string16(data, a.len() as int) == Some(e)) by {
        lemma_string16(a, e, signature);
    }
}

/// The parameters of a server's key exchange are read by the method: finite-field parameters
/// are a prime, a generator and a public value, in this order.
pub proof fn law_dh_parameters_are_stored(
    kx: u8,
    p: Seq<u8>,
    g: Seq<u8>,
    y: Seq<u8>,
    signature: Seq<u8>,
    params: &[u8],
    r: Option<ServerKeyExchange>,
)
    requires
        kx == KX_DHE || kx == KX_DH,
        p.len() < 0x1_0000 && g.len() < 0x1_0000 && y.len() < 0x1_0000,
        params@ == string16_bytes(p) + string16_bytes(g) + string16_bytes(y) + signature,
        call_ensures(read_server_kx, (kx, params), r),
    ensures
        r matches Some(ServerKeyExchange::Dh { prime, generator, kx_data }) && prime@ == p
            && generator@ == g && kx_data@ == y,
{
    lemma_dh_bytes(p, g, y, signature);
}

/// Elliptic-curve parameters are a named curve and a public point.
pub proof fn law_ecdh_parameters_are_stored(
    kx: u8,
    curve_id: u16,
    point: Seq<u8>,
    signature: Seq<u8>,
    params: &[u8],
    r: Option<ServerKeyExchange>,
)
    requires
        kx == KX_ECDHE || kx == KX_ECDH,
        point.len() <= 255,
        params@ == seq![3u8] + be16_bytes(curve_id as int) + seq![point.len() as u8] + point
            + signature,
        call_ensures(read_server_kx, (kx, params), r),
    ensures
        r matches Some(ServerKeyExchange::Ecdh { curve, kx_data }) && curve == curve_id && kx_data@
            == point,
{
    let data = params@;
    let tail = seq![point.len() as u8] + point + signature;
    law_be16_is_read_back(seq![3u8], curve_id as int, tail);
    assert(data =~= seq![3u8] + be16_bytes(curve_id as int) + tail);
    assert(data[3] == point.len() as u8);
    assert(data.subrange(4, 4int + point.len()) =~= point);
    assert(named_curve_params(data) == Some((curve_id, point)));
}

/// RSA parameters are a modulus and an exponent; parameters of a method that is not known are
/// kept as they are.
pub proof fn law_other_parameters_are_stored(
    kx: u8,
    n: Seq<u8>,
    e: Seq<u8>,
    signature: Seq<u8>,
    params: &[u8],
    r: Option<ServerKeyExchange>,
)
    requires
        n.len() < 0x1_0000 && e.len() < 0x1_0000,
        params@ == string16_bytes(n) + string16_bytes(e) + signature,
        call_ensures(read_server_kx, (kx, params), r),
    ensures
        kx == KX_RSA ==> (r matches Some(ServerKeyExchange::Rsa { modulus, exponent }) && modulus@
            == n && exponent@ == e),
        kx != KX_RSA && kx != KX_DH && kx != KX_DHE && kx != KX_ECDH && kx != KX_ECDHE ==> (
        r matches Some(ServerKeyExchange::Unknown(all)) && all@ == params@),
{
    lemma_rsa_bytes(n, e, signature);
}

/// A client's key exchange value is stored by the method: a point after its 8-bit length, a
/// public value or an encrypted secret after its 16-bit length.
pub proof fn law_client_key_exchange_is_stored(
    kx: u8,
    value: Seq<u8>,
    rest: Seq<u8>,
    short: &[u8],
    long: &[u8],
    r: Option<ClientKeyExchange>,
    s: Option<ClientKeyExchange>,
)
    requires
        value.len() <= 255,
        short@ == seq![value.len() as u8] + value + rest,
        long@ == string16_bytes(value) + rest,
        call_ensures(read_client_kx, (kx, short), r),
        call_ensures(read_client_kx, (kx, long), s),
    ensures
        kx == KX_ECDHE || kx == KX_ECDH ==> (r matches Some(ClientKeyExchange::Ecdh { kx_data })
            && kx_data@ == value),
        kx == KX_DHE || kx == KX_DH ==> (s matches Some(ClientKeyExchange::Dh { kx_data })
            && kx_data@ == value),
        kx == KX_RSA ==> (s matches Some(ClientKeyExchange::Rsa { encrypted_pms })
            && encrypted_pms@ == value),
{
    assert(short@.subrange(1, 1int + value.len()) =~= value);
    lemma_string16(Seq::empty(), value, rest);
    assert(long@ =~= Seq::<u8>::empty() + string16_bytes(value) + rest);
}

/// Certificates are added to those of the side that sent them, after those that were there.
pub proof fn law_certificates_are_kept_by_side(
    m: TlsModel,
    message: Seq<u8>,
    certs: Seq<Seq<u8>>,
    direction: bool,
    after: Tls,
)
    requires
        handshake_message(message) == HandshakeModel::Certificate(certs),
        after@ == with_handshake_message(m, message, direction),
    ensures
        direction ==> after@.client_certificates == m.client_certificates + certs
            && after@.server_certificates == m.server_certificates,
        !direction ==> after@.server_certificates == m.server_certificates + certs
            && after@.client_certificates == m.client_certificates,
        after@.client_hello == m.client_hello,
        after@.server_hello == m.server_hello,
{
}

/// Hello messages go to the side that they are of: a ClientHello is never stored as the
/// server's, nor a ServerHello as the client's.
pub proof fn law_hellos_are_kept_by_side(
    m: TlsModel,
    message: Seq<u8>,
    c: ClientHelloFields,
    s: ServerHelloFields,
    direction: bool,
)
    ensures
        handshake_message(message) == HandshakeModel::ClientHello(c) ==> {
            let after = with_handshake_message(m, message, direction);
            &&& after.server_hello == m.server_hello
            &&& after.client_hello matches Some(h) && h.random == c.random && h.version
                == c.version
        },
        handshake_message(message) == HandshakeModel::ServerHello(s) ==> {
            let after = with_handshake_message(m, message, direction);
            &&& after.client_hello == m.client_hello
            &&& after.server_hello matches Some(h) && h.random == s.random && h.cipher_suite
                == s.cipher
        },
{
    if let Some(list) = client_extensions(or_empty(c.ext)) {
        lemma_client_fixed(c, list);
    }
    if let Some(list) = server_extensions(or_empty(s.ext)) {
        lemma_server_fixed(s, list);
    }
}

/// A handshake message: its type, its length and its contents.
pub open spec fn handshake_bytes(kind: u8, contents: Seq<u8>) -> Seq<u8> {
    seq![kind, (contents.len() / 0x1_0000) as u8] + be16_bytes(contents.len() as int % 0x1_0000)
        + contents
}

/// The public point of a ServerKeyExchange is stored as the server's, and that of a
/// ClientKeyExchange as the client's, where the suite that the server chose says that they
/// agree on a key over an elliptic curve.
pub proof fn law_key_exchanges_are_kept_by_side(
    m: TlsModel,
    chosen: ServerHello,
    curve_id: u16,
    point: Seq<u8>,
    signature: Seq<u8>,
    after_server: Tls,
    after_client: Tls,
    direction: bool,
)
    requires
        point.len() <= 255,
        m.server_hello == Some(chosen@),
        cipher_kx(chosen.cipher_suite) == Some(KX_ECDHE),
        ({
            let params = seq![3u8] + be16_bytes(curve_id as int) + seq![point.len() as u8] + point
                + signature;
            &&& handshake_message(handshake_bytes(12, params)) == HandshakeModel::Other
            &&& after_server@ == with_handshake_message(m, handshake_bytes(12, params), direction)
        }),
        ({
            let value = seq![point.len() as u8] + point;
            &&& handshake_message(handshake_bytes(16, value)) == HandshakeModel::Other
            &&& after_client@ == with_handshake_message(m, handshake_bytes(16, value), direction)
        }),
    ensures
        after_server.server_key_exchange matches Some(ServerKeyExchange::Ecdh { curve, kx_data })
            && curve == curve_id && kx_data@ == point,
        after_server@.client_key_exchange == m.client_key_exchange,
        after_client.client_key_exchange matches Some(ClientKeyExchange::Ecdh { kx_data })
            && kx_data@ == point,
        after_client@.server_key_exchange == m.server_key_exchange,
{
    let tail = seq![point.len() as u8] + point + signature;
    let params = seq![3u8] + be16_bytes(curve_id as int) + seq![point.len() as u8] + point
        + signature;
    law_be16_is_read_back(seq![3u8], curve_id as int, tail);
    assert(params =~= seq![3u8] + be16_bytes(curve_id as int) + tail);
    assert(params[3] == point.len() as u8);
    assert(params.subrange(4, 4int + point.len()) =~= point);
    assert(named_curve_params(params) == Some((curve_id, point)));
    assert(handshake_bytes(12, params).skip(4) =~= params);
    let value = seq![point.len() as u8] + point;
    assert(handshake_bytes(16, value).skip(4) =~= value);
    assert(value.subrange(1, 1int + point.len()) =~= point);
}

/// A fatal alert ends the session, and a warning does not.
pub proof fn law_fatal_alerts_end_the_session(m: TlsModel, description: u8, direction: bool)
    requires
        m.state != TlsState::ClientChangeCipherSpec,
    ensures
        message_step(m, 21, seq![2u8, description], direction).1 == ParseResult::HeadersDone(0),
        message_step(m, 21, seq![1u8, description], direction).1 == ParseResult::Continue(0),
{
}

/// A change of cipher spec right after the ServerHello ends the handshake: whatever comes
/// then is left alone.
pub proof fn law_change_of_cipher_spec_ends_the_handshake(
    m: TlsModel,
    message: Seq<u8>,
    direction: bool,
    more: Seq<u8>,
    other: bool,
)
    requires
        m.state == TlsState::ServerHello,
    ensures
        ({
            let after = message_step(m, 20, message, direction).0;
            segment_step(after, more, other) == (after, ParseResult::HeadersDone(0))
        }),
{
}

/// Cipher suites of three bytes each.
pub open spec fn spec_list(specs: Seq<u32>) -> Seq<u8>
    decreases specs.len(),
{
    if specs.len() == 0 {
        Seq::empty()
    } else {
        spec_list(specs.drop_last()) + seq![
            (specs.last() / 0x1_0000) as u8,
            (specs.last() / 0x100 % 0x100) as u8,
            (specs.last() % 0x100) as u8,
        ]
    }
}

proof fn lemma_spec_list(specs: Seq<u32>)
    requires
        forall|i: int| 0 <= i < specs.len() ==> #[trigger] specs[i] < 0x100_0000,
    ensures
        spec_list(specs).len() == 3 * specs.len(),
        triples(spec_list(specs)) == specs,
    decreases specs.len(),
{
    let s = spec_list(specs);
    if specs.len() > 0 {
        let init = specs.drop_last();
        assert forall|i: int| 0 <= i < init.len() implies #[trigger] init[i] < 0x100_0000 by {
            assert(init[i] == specs[i]);
        }
        lemma_spec_list(init);
        let t = spec_list(init);
        assert(specs.last() == specs[specs.len() - 1]);
        assert forall|i: int| 0 <= i < specs.len() implies #[trigger] triples(s)[i] == specs[i] by {
            if i < init.len() {
                assert(s[3 * i] == t[3 * i] && s[3 * i + 1] == t[3 * i + 1] && s[3 * i + 2] == t[3
                    * i + 2]);
                assert(triples(t)[i] == init[i]);
            } else {
                let v = specs.last();
                assert(s[3 * i] == (v / 0x1_0000) as u8);
                assert(s[3 * i + 1] == (v / 0x100 % 0x100) as u8);
                assert(s[3 * i + 2] == (v % 0x100) as u8);
            }
        }
        assert(triples(s) =~= specs);
    } else {
        assert(triples(s) =~= specs);
    }
}

/// An SSLv2-format ClientHello (RFC 5246, appendix E.2): its length with the high bit set,
/// the message type, a version, three lengths, and the cipher suites, the session ID and the
/// challenge.
pub open spec fn sslv2_bytes(
    version: u16,
    specs: Seq<u32>,
    id: Seq<u8>,
    challenge: Seq<u8>,
) -> Seq<u8> {
    be16_bytes(0x8009int + 3 * specs.len() + id.len() + challenge.len()) + seq![1u8]
        + be16_bytes(version as int) + be16_bytes(3 * specs.len() as int) + be16_bytes(
        id.len() as int,
    ) + be16_bytes(challenge.len() as int) + spec_list(specs) + id + challenge
}

/// What the fields of an SSLv2-format ClientHello are where they stand.
#[verifier::opaque]
spec fn sslv2_layout(
    data: Seq<u8>,
    version: u16,
    list: Seq<u8>,
    id: Seq<u8>,
    challenge: Seq<u8>,
) -> bool {
    let n = 9int + list.len() + id.len() + challenge.len();
    let body = data.subrange(2, 2 + n);
    &&& n < 0x8000
    &&& data.len() >= 2 + n
    &&& be16(data, 0) == 0x8000 + n
    &&& body[0] == 1
    &&& be16(body, 1) == version
    &&& be16(body, 3) == list.len()
    &&& be16(body, 5) == id.len()
    &&& be16(body, 7) == challenge.len()
    &&& body.subrange(9, 9int + list.len()) == list
    &&& body.subrange(9int + list.len(), 9int + list.len() + id.len()) == id
    &&& body.subrange(9int + list.len() + id.len(), n) == challenge
}

proof fn lemma_sslv2_bytes(
    version: u16,
    list: Seq<u8>,
    id: Seq<u8>,
    challenge: Seq<u8>,
    rest: Seq<u8>,
    data: Seq<u8>,
)
    requires
        9 + list.len() + id.len() + challenge.len() < 0x8000,
        data == be16_bytes(0x8009int + list.len() + id.len() + challenge.len()) + seq![1u8]
            + be16_bytes(version as int) + be16_bytes(list.len() as int) + be16_bytes(
            id.len() as int,
        ) + be16_bytes(challenge.len() as int) + list + id + challenge + rest,
    ensures
        sslv2_layout(data, version, list, id, challenge),
{
    reveal(sslv2_layout);
    let n = 9int + list.len() + id.len() + challenge.len();
    let h = be16_bytes(0x8000 + n);
    let v = be16_bytes(version as int);
    let l1 = be16_bytes(list.len() as int);
    let l2 = be16_bytes(id.len() as int);
    let l3 = be16_bytes(challenge.len() as int);
    let body = data.subrange(2, 2 + n);
    assert(data[0] == h[0] && data[1] == h[1]);
    assert(body[0] == 1);
    assert(body[1] == v[0] && body[2] == v[1]);
    assert(body[3] == l1[0] && body[4] == l1[1]);
    assert(body[5] == l2[0] && body[6] == l2[1]);
    assert(body[7] == l3[0] && body[8] == l3[1]);
    assert(body.subrange(9, 9int + list.len()) =~= list);
    assert(body.subrange(9int + list.len(), 9int + list.len() + id.len()) =~= id);
    assert(body.subrange(9int + list.len() + id.len(), n) =~= challenge);
}

proof fn lemma_sslv2_fields(
    data: Seq<u8>,
    version: u16,
    list: Seq<u8>,
    specs: Seq<u32>,
    id: Seq<u8>,
    challenge: Seq<u8>,
)
    requires
        sslv2_layout(data, version, list, id, challenge),
        list.len() == 3 * specs.len(),
        triples(list) == specs,
    ensures
        sslv2_hello(data) == Ok::<(int, SslV2Hello), SslV2Error>(
            (
                11int + 3 * specs.len() + id.len() + challenge.len(),
                SslV2Hello { version, cipher_specs: specs, session_id: id, challenge },
            ),
        ),
{
    reveal(sslv2_layout);
    let n = 9int + list.len() + id.len() + challenge.len();
    let body = data.subrange(2, 2 + n);
    assert(2 + be16(data, 0) % 0x8000 == 2 + n);
    assert(body.len() == n);
}

proof fn lemma_sslv2_hello(
    version: u16,
    specs: Seq<u32>,
    id: Seq<u8>,
    challenge: Seq<u8>,
    rest: Seq<u8>,
)
    requires
        forall|i: int| 0 <= i < specs.len() ==> #[trigger] specs[i] < 0x100_0000,
        9 + 3 * specs.len() + id.len() + challenge.len() < 0x8000,
    ensures
        sslv2_hello(sslv2_bytes(version, specs, id, challenge) + rest) == Ok::<
            (int, SslV2Hello),
            SslV2Error,
        >(
            (
                11int + 3 * specs.len() + id.len() + challenge.len(),
                SslV2Hello { version, cipher_specs: specs, session_id: id, challenge },
            ),
        ),
{
    let list = spec_list(specs);
    let data = sslv2_bytes(version, specs, id, challenge) + rest;
    assert(list.len() == 3 * specs.len() && triples(list) == specs) by {
        lemma_spec_list(specs);
    }
    lemma_sslv2_bytes(version, list, id, challenge, rest, data);
    lemma_sslv2_fields(data, version, list, specs, id, challenge);
}

proof fn lemma_parsed_sslv2(
    data: &[u8],
    len: int,
    h: SslV2Hello,
    r: Result<(usize, SslV2ClientHello), SslV2Error>,
)
    requires
        sslv2_hello(data@) == Ok::<(int, SslV2Hello), SslV2Error>((len, h)),
        call_ensures(parse_sslv2_client_hello, (data,), r),
    ensures
        r matches Ok((n, hello)) && n == len && hello@ == h,
{
}

proof fn lemma_sslv2_length(version: u16, specs: Seq<u32>, id: Seq<u8>, challenge: Seq<u8>)
    ensures
        sslv2_bytes(version, specs, id, challenge).len() == 11 + spec_list(specs).len() + id.len()
            + challenge.len(),
{
}

/// An SSLv2-format ClientHello is read back as it was written, whatever follows it.
pub proof fn law_sslv2_hello_is_read_back(
    version: u16,
    specs: Seq<u32>,
    id: Seq<u8>,
    challenge: Seq<u8>,
    rest: Seq<u8>,
    data: &[u8],
    r: Result<(usize, SslV2ClientHello), SslV2Error>,
)
    requires
        forall|i: int| 0 <= i < specs.len() ==> #[trigger] specs[i] < 0x100_0000,
        9 + 3 * specs.len() + id.len() + challenge.len() < 0x8000,
        data@ == sslv2_bytes(version, specs, id, challenge) + rest,
        call_ensures(parse_sslv2_client_hello, (data,), r),
    ensures
        r matches Ok((n, hello)) && {
            &&& n == sslv2_bytes(version, specs, id, challenge).len()
            &&& hello.version == version
            &&& hello.cipher_specs@ == specs
            &&& hello.session_id@ == id
            &&& hello.challenge@ == challenge
        },
{
    let len = 11int + 3 * specs.len() + id.len() + challenge.len();
    let h = SslV2Hello { version, cipher_specs: specs, session_id: id, challenge };
    assert(sslv2_bytes(version, specs, id, challenge).len() == len) by {
        lemma_spec_list(specs);
        lemma_sslv2_length(version, specs, id, challenge);
    }
    assert(sslv2_hello(data@) == Ok::<(int, SslV2Hello), SslV2Error>((len, h))) by {
        lemma_sslv2_hello(version, specs, id, challenge, rest);
    }
    lemma_parsed_sslv2(data, len, h, r);
}

/// An SSLv2-format ClientHello is stored as a ClientHello: its challenge as the random bytes,
/// and of its cipher suites those that have two bytes, in order.
pub proof fn law_sslv2_hello_is_stored(
    m: TlsModel,
    h: SslV2Hello,
    more: Seq<u32>,
    spec: u32,
    after: Tls,
)
    requires
        after@ == with_sslv2_hello(m, h),
    ensures
        after.state == TlsState::ClientHello,
        after.client_hello matches Some(c) && {
            &&& c.version == h.version
            &&& c.random@ == h.challenge
            &&& c.session_id@ == h.session_id
            &&& c.extension_list@.len() == 0
            &&& c.server_name is None
            &&& h.cipher_specs == more.push(spec) ==> c.cipher_suites@ == (if spec < 0x1_0000 {
                v3_suites(more).push(spec as u16)
            } else {
                v3_suites(more)
            })
            &&& h.cipher_specs.len() == 0 ==> c.cipher_suites@.len() == 0
        },
{
    assert(more.push(spec).drop_last() =~= more);
}

/// A record header: content type, version and length.
pub open spec fn record_header(kind: u8, version: u16, len: u16) -> Seq<u8> {
    seq![kind] + be16_bytes(version as int) + be16_bytes(len as int)
}

/// The bytes of a record header are taken for TLS exactly if the content type is one of the
/// four and the version is SSL 3.0 or TLS 1.0 to 1.2 as the record layer has it; the length
/// does not matter.
pub proof fn law_record_headers_are_recognized(
    kind: u8,
    version: u16,
    len: u16,
    rest: Seq<u8>,
)
    requires
        kind < 0x80,
    ensures
        probe_result(record_header(kind, version, len) + rest) == (if 20 <= kind <= 23 && 0x0300
            <= version <= 0x0303 {
            ProbeResult::Certain
        } else {
            ProbeResult::NotForUs
        }),
{
    let data = record_header(kind, version, len) + rest;
    let v = be16_bytes(version as int);
    assert(data[0] == kind && data[1] == v[0] && data[2] == v[1]);
    assert(kind & 0x80 == 0) by (bit_vector)
        requires
            kind < 0x80u8,
    ;
}

/// The bytes of an SSLv2-format ClientHello are taken for TLS if its version is SSL 3.0 or
/// TLS 1.0 to 1.2.
pub proof fn law_sslv2_hellos_are_recognized(
    version: u16,
    specs: Seq<u32>,
    id: Seq<u8>,
    challenge: Seq<u8>,
    rest: Seq<u8>,
)
    requires
        0x0300 <= version <= 0x0303,
        9 + 3 * specs.len() + id.len() + challenge.len() < 0x8000,
    ensures
        probe_result(sslv2_bytes(version, specs, id, challenge) + rest) == ProbeResult::Certain,
{
    let data = sslv2_bytes(version, specs, id, challenge) + rest;
    let n = 9int + 3 * specs.len() + id.len() + challenge.len();
    let h = be16_bytes(0x8000 + n);
    let v = be16_bytes(version as int);
    assert(data[0] == h[0] && data[2] == 1 && data[3] == v[0] && data[4] == v[1]);
    let b = data[0];
    assert(b & 0x80 != 0) by (bit_vector)
        requires
            b >= 0x80u8,
    ;
}

/// Records are worked off one after the other, each with its own type, version and
/// contents, as long as none of them concludes anything.
pub proof fn law_records_are_worked_off_in_order(
    m: TlsModel,
    kind: u8,
    version: u16,
    contents: Seq<u8>,
    rest: Seq<u8>,
    direction: bool,
    pdu_len: usize,
)
    requires
        contents.len() <= 0x4100,
    ensures
        ({
            let len = contents.len() as u16;
            let (next, status) = record_step(m, kind, version, len, contents, direction, pdu_len);
            records_step(m, record_header(kind, version, len) + contents + rest, direction, pdu_len)
                == (if status == ParseResult::Continue(0) {
                records_step(next, rest, direction, pdu_len)
            } else {
                (next, status)
            })
        }),
{
    let len = contents.len() as u16;
    let v = be16_bytes(version as int);
    let l = be16_bytes(contents.len() as int);
    let data = record_header(kind, version, len) + contents + rest;
    assert(data[0] == kind && data[1] == v[0] && data[2] == v[1]);
    assert(data[3] == l[0] && data[4] == l[1]);
    let end = 5int + len;
    assert(data.subrange(5, end) =~= contents);
    assert(data.skip(end) =~= rest);
}

/// A record that is cut off is kept, and nothing is done with it before the rest has come.
pub proof fn law_cut_off_records_are_kept(
    m: TlsModel,
    kind: u8,
    version: u16,
    contents: Seq<u8>,
    cut: int,
    direction: bool,
)
    requires
        m.state != TlsState::ClientChangeCipherSpec,
        m.state != TlsState::Start,
        m.tcp_buffer.len() == 0,
        contents.len() <= 0x4100,
        0 < cut < 5 + contents.len(),
    ensures
        ({
            let record = record_header(kind, version, contents.len() as u16) + contents;
            segment_step(m, record.take(cut), direction) == (
                TlsModel { tcp_buffer: record.take(cut), ..m },
                ParseResult::Continue(0),
            )
        }),
{
    let len = be16_bytes(contents.len() as int);
    let record = record_header(kind, version, contents.len() as u16) + contents;
    let data = record.take(cut);
    assert(m.tcp_buffer + data =~= data);
    if cut >= 5 {
        assert(data[3] == len[0] && data[4] == len[1]);
        assert(be16(data, 3) == contents.len());
    }
    assert(record_read(data) == RecordRead::Incomplete);
    assert(Seq::<u8>::empty() + data =~= data);
}

/// A handshake message is as long as it says, wherever in a record it begins; an alert has two
/// bytes, and a change of cipher spec one.
pub proof fn law_messages_are_framed(
    before: Seq<u8>,
    kind: u8,
    contents: Seq<u8>,
    rest: Seq<u8>,
)
    requires
        contents.len() < 0x100_0000,
    ensures
        ({
            let data = before + handshake_bytes(kind, contents) + rest;
            let at = before.len() as int;
            &&& frame_len(data, 22, at) == handshake_bytes(kind, contents).len()
            &&& frame_len(data, 21, at) == 2
            &&& frame_len(data, 20, at) == 1
        }),
{
    let h = handshake_bytes(kind, contents);
    let data = before + h + rest;
    let at = before.len() as int;
    let l = be16_bytes(contents.len() as int % 0x1_0000);
    assert(h[1] == (contents.len() / 0x1_0000) as u8 && h[2] == l[0] && h[3] == l[1]);
    assert(data[at + 1] == h[1] && data[at + 2] == h[2] && data[at + 3] == h[3]);
}

/// The messages of a record are taken apart where they were put together.
pub proof fn law_two_messages_are_taken_apart(
    kind: u8,
    contents: Seq<u8>,
    other: u8,
    more: Seq<u8>,
    rest: Seq<u8>,
)
    requires
        contents.len() < 0x100_0000,
        more.len() < 0x100_0000,
    ensures
        ({
            let a = handshake_bytes(kind, contents);
            let b = handshake_bytes(other, more);
            &&& message_at(a + b + rest, 22, 0) == a
            &&& message_at(a + b + rest, 22, 1) == b
        }),
{
    let a = handshake_bytes(kind, contents);
    let b = handshake_bytes(other, more);
    let data = a + b + rest;
    law_messages_are_framed(Seq::empty(), kind, contents, b + rest);
    assert(data =~= Seq::<u8>::empty() + a + (b + rest));
    law_messages_are_framed(a, other, more, rest);
    reveal_with_fuel(frames_end, 3);
    assert(frames_end(data, 22, 0) == 0);
    assert(frames_end(data, 22, 1) == a.len());
    assert(frames_end(data, 22, 2) == a.len() + b.len());
    assert(data.subrange(0, a.len() as int) =~= a);
    assert(data.subrange(a.len() as int, a.len() as int + b.len()) =~= b);
}

} // verus!
