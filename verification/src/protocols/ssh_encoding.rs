//! How SSH packets are written (RFC 4253), and that what is written is read back.

use crate::conntrack::pdu::L4Pdu;
use crate::protocols::ssh::{
    identifier_from, law_packets_are_drained, names, packet_len, packet_of, packet_payload, packets_step, payload_packet,
    segment_step, split_commas, strings_at, texts, with_packet, with_version,
    IdentificationModel, PacketModel, Ssh, SshModel, SshNewKeys, SshParser,
};
use crate::protocols::{ParseResult, ProbeResult};
use crate::wire::{be32_bytes, law_be32_is_read_back};
use vstd::prelude::*;
use vstd::utf8::decode_utf8;

verus! {

/// A binary packet: its length, the length of its padding, its payload and its padding.
pub open spec fn binary_packet(payload: Seq<u8>, padding: Seq<u8>) -> Seq<u8> {
    be32_bytes(1int + payload.len() + padding.len()) + seq![padding.len() as u8] + payload
        + padding
}

/// A string: its length and its bytes.
pub open spec fn string_bytes(s: Seq<u8>) -> Seq<u8> {
    be32_bytes(s.len() as int) + s
}

/// Strings, one after the other.
pub open spec fn string_list(list: Seq<Seq<u8>>) -> Seq<u8>
    decreases list.len(),
{
    if list.len() == 0 {
        Seq::empty()
    } else {
        string_list(list.drop_last()) + string_bytes(list.last())
    }
}

/// Names, with a comma between any two.
pub open spec fn joined(list: Seq<Seq<u8>>) -> Seq<u8>
    decreases list.len(),
{
    if list.len() == 0 {
        Seq::empty()
    } else if list.len() == 1 {
        list[0]
    } else {
        joined(list.drop_last()) + seq![0x2cu8] + list.last()
    }
}

/// A packet of some length is read whole, whatever follows it.
pub proof fn law_packet_is_read_back(payload: Seq<u8>, padding: Seq<u8>, rest: Seq<u8>)
    requires
        payload.len() > 0,
        padding.len() <= 255,
        1 + payload.len() + padding.len() < 0x1_0000_0000,
    ensures
        packet_len(binary_packet(payload, padding) + rest) == Some(
            5int + payload.len() + padding.len(),
        ),
        packet_payload(binary_packet(payload, padding) + rest) == payload,
        packet_of(binary_packet(payload, padding) + rest) == payload_packet(payload),
{
    let n = 1int + payload.len() + padding.len();
    let data = binary_packet(payload, padding) + rest;
    let tail = seq![padding.len() as u8] + payload + padding + rest;
    law_be32_is_read_back(Seq::empty(), n, tail);
    assert(data =~= Seq::<u8>::empty() + be32_bytes(n) + tail);
    assert(data[4] == padding.len() as u8);
    assert(data.subrange(5, 5int + payload.len()) =~= payload);
}

/// The lengths of the strings can be written.
pub open spec fn strings_fit(list: Seq<Seq<u8>>) -> bool {
    forall|i: int| 0 <= i < list.len() ==> (#[trigger] list[i]).len() < 0x1_0000_0000
}

/// Strings are read back one by one, wherever they stand.
pub proof fn law_strings_are_read_back(before: Seq<u8>, list: Seq<Seq<u8>>, after: Seq<u8>)
    requires
        strings_fit(list),
    ensures
        strings_at(before + string_list(list) + after, before.len() as int, list.len()) == Some(
            (list, before.len() + string_list(list).len() as int),
        ),
    decreases list.len(),
{
    let data = before + string_list(list) + after;
    if list.len() == 0 {
        assert(list =~= Seq::empty());
    } else {
        let init = list.drop_last();
        let last = list.last();
        law_strings_are_read_back(before, init, string_bytes(last) + after);
        assert(data =~= before + string_list(init) + (string_bytes(last) + after));
        let front = before + string_list(init);
        law_be32_is_read_back(front, last.len() as int, last + after);
        assert(data =~= front + be32_bytes(last.len() as int) + (last + after));
        let at = front.len() as int;
        assert(data.subrange(at + 4, at + 4 + last.len()) =~= last);
        assert(init.push(last) =~= list);
    }
}

proof fn lemma_split_append(bytes: Seq<u8>, more: Seq<u8>)
    requires
        !more.contains(0x2c),
    ensures
        split_commas(bytes).len() > 0,
        split_commas(bytes + more) == split_commas(bytes).drop_last().push(
            split_commas(bytes).last() + more,
        ),
    decreases more.len(),
{
    lemma_split_nonempty(bytes);
    if more.len() == 0 {
        assert(bytes + more =~= bytes);
        assert(split_commas(bytes).last() + more =~= split_commas(bytes).last());
        assert(split_commas(bytes).drop_last().push(split_commas(bytes).last()) =~= split_commas(
            bytes,
        ));
    } else {
        let init = more.drop_last();
        assert forall|k: int| 0 <= k < init.len() implies init[k] != 0x2c by {
            assert(more.contains(more[k]));
        }
        assert(more.contains(more[more.len() - 1]));
        lemma_split_append(bytes, init);
        assert((bytes + more).drop_last() =~= bytes + init);
        let s = split_commas(bytes + init);
        assert(s.drop_last() =~= split_commas(bytes).drop_last());
        assert(s.last().push(more.last()) =~= split_commas(bytes).last() + more);
    }
}

proof fn lemma_split_nonempty(bytes: Seq<u8>)
    ensures
        split_commas(bytes).len() > 0,
    decreases bytes.len(),
{
    if bytes.len() > 0 {
        lemma_split_nonempty(bytes.drop_last());
    }
}

/// Names without commas in them that are joined by commas are split again.
pub proof fn law_joined_names_are_split(list: Seq<Seq<u8>>)
    requires
        list.len() > 0,
        forall|i: int| 0 <= i < list.len() ==> !(#[trigger] list[i]).contains(0x2c),
    ensures
        split_commas(joined(list)) == list,
    decreases list.len(),
{
    if list.len() == 1 {
        lemma_split_append(Seq::empty(), list[0]);
        assert(Seq::<u8>::empty() + list[0] =~= list[0]);
        assert(split_commas(list[0]) =~= list);
    } else {
        let init = list.drop_last();
        assert forall|i: int| 0 <= i < init.len() implies !(#[trigger] init[i]).contains(0x2c) by {
            assert(init[i] == list[i]);
        }
        law_joined_names_are_split(init);
        let front = joined(init) + seq![0x2cu8];
        assert(front.drop_last() =~= joined(init));
        assert(split_commas(front) == init.push(Seq::empty()));
        assert(list.last() == list[list.len() - 1]);
        lemma_split_append(front, list.last());
        assert(Seq::<u8>::empty() + list.last() =~= list.last());
        assert(split_commas(front).drop_last() =~= init);
        assert(init.push(list.last()) =~= list);
    }
}

/// The payload of a key exchange: a cookie, ten lists of names, whether a guessed packet
/// follows, and four bytes that are not used.
pub open spec fn key_exchange_payload(
    cookie: Seq<u8>,
    lists: Seq<Seq<u8>>,
    follows: u8,
    unused: Seq<u8>,
) -> Seq<u8> {
    seq![20u8] + cookie + string_list(lists) + (seq![follows] + unused)
}

proof fn lemma_key_exchange_payload(
    cookie: Seq<u8>,
    lists: Seq<Seq<u8>>,
    follows: u8,
    unused: Seq<u8>,
)
    requires
        cookie.len() == 16,
        lists.len() == 10,
        strings_fit(lists),
        unused.len() == 4,
    ensures
        payload_packet(key_exchange_payload(cookie, lists, follows, unused)) == (
        PacketModel::KeyExchange { cookie, lists, follows: follows > 0 }),
{
    let d = key_exchange_payload(cookie, lists, follows, unused);
    let head = seq![20u8] + cookie;
    law_strings_are_read_back(head, lists, seq![follows] + unused);
    assert(d.subrange(1, 17) =~= cookie);
    let end = head.len() + string_list(lists).len();
    assert(d[end as int] == follows);
}

/// The texts that a list of names stands for.
pub open spec fn decoded(list: Seq<Seq<u8>>) -> Seq<Seq<char>> {
    list.map_values(|name: Seq<u8>| decode_utf8(name))
}

/// A list of names as a peer sends it: some names, none with a comma in it.
pub open spec fn names_fit(list: Seq<Seq<u8>>) -> bool {
    &&& list.len() > 0
    &&& joined(list).len() < 0x1_0000_0000
    &&& forall|i: int| 0 <= i < list.len() ==> !(#[trigger] list[i]).contains(0x2c)
}

proof fn lemma_names(list: Seq<Seq<u8>>)
    requires
        names_fit(list),
    ensures
        names(joined(list)) == decoded(list),
{
    law_joined_names_are_split(list);
    assert(names(joined(list)) =~= decoded(list));
}

proof fn lemma_named_lists(
    before: SshModel,
    cookie: Seq<u8>,
    raw: Seq<Seq<u8>>,
    follows: bool,
    dir: bool,
    after: Ssh,
)
    requires
        raw.len() == 10,
        after@ == with_packet(before, PacketModel::KeyExchange { cookie, lists: raw, follows }, dir),
    ensures
        after.key_exchange matches Some(k) && {
            &&& k.cookie@ == cookie
            &&& texts(k.kex_algs@) == names(raw[0])
            &&& texts(k.server_host_key_algs@) == names(raw[1])
            &&& texts(k.encryption_algs_client_to_server@) == names(raw[2])
            &&& texts(k.encryption_algs_server_to_client@) == names(raw[3])
            &&& texts(k.mac_algs_client_to_server@) == names(raw[4])
            &&& texts(k.mac_algs_server_to_client@) == names(raw[5])
            &&& texts(k.compression_algs_client_to_server@) == names(raw[6])
            &&& texts(k.compression_algs_server_to_client@) == names(raw[7])
            &&& texts(k.languages_client_to_server@) == names(raw[8])
            &&& texts(k.languages_server_to_client@) == names(raw[9])
            &&& k.first_kex_packet_follows == follows
        },
{
    let model = after@.key_exchange->0;
    let k = after.key_exchange->0;
    assert(k@ == model);
    assert(model.lists.len() == 10);
    assert(k@.lists[0] == texts(k.kex_algs@) && model.lists[0] == names(raw[0]));
    assert(k@.lists[1] == texts(k.server_host_key_algs@) && model.lists[1] == names(raw[1]));
    assert(k@.lists[2] == texts(k.encryption_algs_client_to_server@));
    assert(k@.lists[3] == texts(k.encryption_algs_server_to_client@));
    assert(k@.lists[4] == texts(k.mac_algs_client_to_server@));
    assert(k@.lists[5] == texts(k.mac_algs_server_to_client@));
    assert(k@.lists[6] == texts(k.compression_algs_client_to_server@));
    assert(k@.lists[7] == texts(k.compression_algs_server_to_client@));
    assert(k@.lists[8] == texts(k.languages_client_to_server@));
    assert(k@.lists[9] == texts(k.languages_server_to_client@));
}

/// A handshake that has noted a key exchange holds, under each name, the names of the list
/// that stands for it in the message: key exchange, host key, then encryption, MAC,
/// compression and languages, each from client to server and from server to client.
pub proof fn law_key_exchange_is_stored(
    before: SshModel,
    cookie: Seq<u8>,
    lists: Seq<Seq<Seq<u8>>>,
    follows: u8,
    unused: Seq<u8>,
    padding: Seq<u8>,
    rest: Seq<u8>,
    dir: bool,
    after: Ssh,
)
    requires
        cookie.len() == 16,
        lists.len() == 10,
        forall|i: int| 0 <= i < 10 ==> names_fit(#[trigger] lists[i]),
        unused.len() == 4,
        padding.len() <= 255,
        binary_packet(
            key_exchange_payload(
                cookie,
                lists.map_values(|l: Seq<Seq<u8>>| joined(l)),
                follows,
                unused,
            ),
            padding,
        ).len() < 0x1_0000_0000,
        after@ == with_packet(
            before,
            packet_of(
                binary_packet(
                    key_exchange_payload(
                        cookie,
                        lists.map_values(|l: Seq<Seq<u8>>| joined(l)),
                        follows,
                        unused,
                    ),
                    padding,
                ) + rest,
            ),
            dir,
        ),
    ensures
        after.key_exchange matches Some(k) && {
            &&& k.cookie@ == cookie
            &&& texts(k.kex_algs@) == decoded(lists[0])
            &&& texts(k.server_host_key_algs@) == decoded(lists[1])
            &&& texts(k.encryption_algs_client_to_server@) == decoded(lists[2])
            &&& texts(k.encryption_algs_server_to_client@) == decoded(lists[3])
            &&& texts(k.mac_algs_client_to_server@) == decoded(lists[4])
            &&& texts(k.mac_algs_server_to_client@) == decoded(lists[5])
            &&& texts(k.compression_algs_client_to_server@) == decoded(lists[6])
            &&& texts(k.compression_algs_server_to_client@) == decoded(lists[7])
            &&& texts(k.languages_client_to_server@) == decoded(lists[8])
            &&& texts(k.languages_server_to_client@) == decoded(lists[9])
            &&& k.first_kex_packet_follows == (follows != 0)
        },
{
    let raw = lists.map_values(|l: Seq<Seq<u8>>| joined(l));
    let payload = key_exchange_payload(cookie, raw, follows, unused);
    assert forall|i: int| 0 <= i < raw.len() implies (#[trigger] raw[i]).len() < 0x1_0000_0000 by {
        assert(names_fit(lists[i]));
    }
    lemma_key_exchange_payload(cookie, raw, follows, unused);
    law_packet_is_read_back(payload, padding, rest);
    lemma_named_lists(before, cookie, raw, follows > 0, dir, after);
    assert forall|i: int| 0 <= i < 10 implies names(#[trigger] raw[i]) == decoded(lists[i]) by {
        assert(names_fit(lists[i]));
        lemma_names(lists[i]);
    }
}

/// The client's key exchange value is stored as it was sent.
pub proof fn law_dh_init_is_stored(
    before: SshModel,
    e: Seq<u8>,
    padding: Seq<u8>,
    rest: Seq<u8>,
    dir: bool,
    after: Ssh,
)
    requires
        e.len() + 300 < 0x1_0000_0000,
        padding.len() <= 255,
        after@ == with_packet(
            before,
            packet_of(binary_packet(seq![30u8] + string_bytes(e), padding) + rest),
            dir,
        ),
    ensures
        after.client_dh_key_exchange matches Some(d) && d.e@ == e,
        after@.server_dh_key_exchange == before.server_dh_key_exchange,
        after@.key_exchange == before.key_exchange,
{
    let list = seq![e];
    let payload = seq![30u8] + string_bytes(e);
    assert(list.drop_last() =~= Seq::empty());
    reveal_with_fuel(string_list, 2);
    assert(string_list(list) =~= string_bytes(e));
    law_strings_are_read_back(seq![30u8], list, Seq::empty());
    assert(payload =~= seq![30u8] + string_list(list) + Seq::<u8>::empty());
    assert(list[0] == e);
    law_packet_is_read_back(payload, padding, rest);
}

/// The server's key, its key exchange value and its signature are stored as they were sent.
pub proof fn law_dh_reply_is_stored(
    before: SshModel,
    key: Seq<u8>,
    f: Seq<u8>,
    signature: Seq<u8>,
    padding: Seq<u8>,
    rest: Seq<u8>,
    dir: bool,
    after: Ssh,
)
    requires
        key.len() + f.len() + signature.len() + 300 < 0x1_0000_0000,
        padding.len() <= 255,
        after@ == with_packet(
            before,
            packet_of(
                binary_packet(
                    seq![31u8] + string_bytes(key) + string_bytes(f) + string_bytes(signature),
                    padding,
                ) + rest,
            ),
            dir,
        ),
    ensures
        after.server_dh_key_exchange matches Some(d) && {
            &&& d.pubkey_and_certs@ == key
            &&& d.f@ == f
            &&& d.signature@ == signature
        },
        after@.client_dh_key_exchange == before.client_dh_key_exchange,
{
    let list = seq![key, f, signature];
    let payload = seq![31u8] + string_bytes(key) + string_bytes(f) + string_bytes(signature);
    assert(list.drop_last() =~= seq![key, f]);
    assert(seq![key, f].drop_last() =~= seq![key]);
    assert(seq![key].drop_last() =~= Seq::empty());
    reveal_with_fuel(string_list, 4);
    assert(string_list(list) =~= string_bytes(key) + string_bytes(f) + string_bytes(signature));
    assert forall|i: int| 0 <= i < list.len() implies (#[trigger] list[i]).len()
        < 0x1_0000_0000 by {}
    law_strings_are_read_back(seq![31u8], list, Seq::empty());
    assert(payload =~= seq![31u8] + string_list(list) + Seq::<u8>::empty());
    assert(list[0] == key && list[1] == f && list[2] == signature);
    law_packet_is_read_back(payload, padding, rest);
}

/// The message that ends a side's key exchange is noted for the side that sent it, and for
/// no other.
pub proof fn law_new_keys_are_noted_by_side(
    before: SshModel,
    padding: Seq<u8>,
    rest: Seq<u8>,
    dir: bool,
    after: Ssh,
)
    requires
        padding.len() <= 255,
        after@ == with_packet(before, packet_of(binary_packet(seq![21u8], padding) + rest), dir),
    ensures
        dir ==> after.client_new_keys == Some(SshNewKeys) && after.server_new_keys
            == before.server_new_keys,
        !dir ==> after.server_new_keys == Some(SshNewKeys) && after.client_new_keys
            == before.client_new_keys,
{
    lemma_new_keys_packet(padding, rest);
}

/// An identification line is noted for the side that sent it: its protocol version, its
/// software version and its comments, each under its own name.
pub proof fn law_identification_is_noted_by_side(
    before: SshModel,
    proto: Seq<u8>,
    software: Seq<u8>,
    comments: Option<Seq<u8>>,
    rest: int,
    dir: bool,
    after: Ssh,
)
    requires
        after@ == with_version(
            before,
            IdentificationModel::Found { proto, software, comments, rest },
            dir,
        ),
    ensures
        ({
            let (noted, other, other_before) = if dir {
                (
                    after.client_version_exchange,
                    after@.server_version_exchange,
                    before.server_version_exchange,
                )
            } else {
                (
                    after.server_version_exchange,
                    after@.client_version_exchange,
                    before.client_version_exchange,
                )
            };
            &&& other == other_before
            &&& noted matches Some(v) && {
                &&& v.protoversion matches Some(t) && t@ == decode_utf8(proto)
                &&& v.softwareversion matches Some(t) && t@ == decode_utf8(software)
                &&& match comments {
                    Some(c) => v.comments matches Some(t) && t@ == decode_utf8(c),
                    None => v.comments is None,
                }
            }
        }),
{
}

proof fn lemma_new_keys_packet(padding: Seq<u8>, rest: Seq<u8>)
    requires
        padding.len() <= 255,
    ensures
        packet_of(binary_packet(seq![21u8], padding) + rest) is NewKeys,
        packet_len(binary_packet(seq![21u8], padding) + rest) == Some(6int + padding.len()),
        binary_packet(seq![21u8], padding).len() == 6 + padding.len(),
{
    let payload = seq![21u8];
    law_strings_are_read_back(payload, Seq::empty(), Seq::empty());
    assert(payload =~= payload + string_list(Seq::empty()) + Seq::<u8>::empty());
    law_packet_is_read_back(payload, padding, rest);
}

proof fn lemma_last_packet(m: SshModel, data: Seq<u8>, n: int, dir: bool)
    requires
        packet_of(data) is NewKeys,
        packet_len(data) == Some(n),
        0 < n <= data.len(),
        dir ==> m.server_new_keys is Some,
        !dir ==> m.client_new_keys is Some,
    ensures
        ({
            let (after, r) = packets_step(m, data, 0, dir, false);
            &&& r == ParseResult::HeadersDone(0)
            &&& after.client_new_keys is Some && after.server_new_keys is Some
            &&& after.last_body_offset == (if n < data.len() {
                Some(n)
            } else {
                m.last_body_offset
            })
        }),
{
    assert(data.skip(0) =~= data);
}

/// The packet with which the second side ends its key exchange ends the handshake, and what
/// follows it in the segment is the body.
pub proof fn law_body_begins_after_the_last_new_keys(
    m: SshModel,
    padding: Seq<u8>,
    rest: Seq<u8>,
    dir: bool,
)
    requires
        padding.len() <= 255,
        dir ==> m.server_new_keys is Some,
        !dir ==> m.client_new_keys is Some,
        identifier_from(binary_packet(seq![21u8], padding) + rest, 0) is None,
    ensures
        ({
            let packet = binary_packet(seq![21u8], padding);
            let (after, r) = segment_step(m, packet + rest, dir);
            &&& r == ParseResult::HeadersDone(0)
            &&& after.client_new_keys is Some && after.server_new_keys is Some
            &&& after.last_body_offset == (if rest.len() > 0 {
                Some(packet.len() as int)
            } else {
                m.last_body_offset
            })
        }),
{
    let data = binary_packet(seq![21u8], padding) + rest;
    lemma_new_keys_packet(padding, rest);
    lemma_last_packet(m, data, 6int + padding.len(), dir);
}

proof fn lemma_next_packet(
    m: SshModel,
    data: Seq<u8>,
    at: int,
    p: PacketModel,
    len: int,
    dir: bool,
    any: bool,
)
    requires
        0 <= at < data.len(),
        packet_of(data.skip(at)) == p,
        packet_len(data.skip(at)) == Some(len),
        !(p is Malformed),
        !(p is NewKeys),
    ensures
        packets_step(m, data, at, dir, any) == packets_step(
            with_packet(m, p, dir),
            data,
            at + len,
            dir,
            true,
        ),
{
    law_packets_are_drained(m, data, at, dir, any);
}

proof fn lemma_packet_at(before: Seq<u8>, payload: Seq<u8>, padding: Seq<u8>, rest: Seq<u8>)
    requires
        payload.len() > 0,
        padding.len() <= 255,
        1 + payload.len() + padding.len() < 0x1_0000_0000,
    ensures
        ({
            let data = before + binary_packet(payload, padding) + rest;
            let at = before.len() as int;
            &&& at < data.len()
            &&& packet_of(data.skip(at)) == payload_packet(payload)
            &&& packet_len(data.skip(at)) == Some(binary_packet(payload, padding).len() as int)
        }),
{
    let packet = binary_packet(payload, padding);
    let data = before + packet + rest;
    let at = before.len() as int;
    assert(packet.len() == 5 + payload.len() + padding.len());
    assert(data.skip(at) =~= packet + rest);
    law_packet_is_read_back(payload, padding, rest);
}

/// Packets that follow one another in a segment are noted one after the other, wherever in the
/// segment they begin, until one ends the handshake.
pub proof fn law_packets_follow_one_another(
    m: SshModel,
    before: Seq<u8>,
    payload: Seq<u8>,
    padding: Seq<u8>,
    rest: Seq<u8>,
    dir: bool,
    any: bool,
)
    requires
        payload.len() > 0,
        padding.len() <= 255,
        1 + payload.len() + padding.len() < 0x1_0000_0000,
        !(payload_packet(payload) is Malformed),
        !(payload_packet(payload) is NewKeys),
    ensures
        ({
            let data = before + binary_packet(payload, padding) + rest;
            packets_step(m, data, before.len() as int, dir, any) == packets_step(
                with_packet(m, payload_packet(payload), dir),
                data,
                before.len() as int + binary_packet(payload, padding).len(),
                dir,
                true,
            )
        }),
{
    let data = before + binary_packet(payload, padding) + rest;
    let at = before.len() as int;
    let len = binary_packet(payload, padding).len() as int;
    lemma_packet_at(before, payload, padding, rest);
    lemma_next_packet(m, data, at, payload_packet(payload), len, dir, any);
}

/// A segment is taken for SSH exactly if it begins with `SSH-`.
pub proof fn law_identification_is_recognized(p: SshParser, pdu: L4Pdu, data: Seq<u8>, r: ProbeResult)
    requires
        pdu.payload() == Some(data),
        pdu.ctxt.length == data.len(),
        data.len() >= 4,
        call_ensures(SshParser::probe, (&p, &pdu), r),
    ensures
        r == (if data.take(4) == seq!['S' as u8, 'S' as u8, 'H' as u8, '-' as u8] {
            ProbeResult::Certain
        } else {
            ProbeResult::NotForUs
        }),
{
    let start = seq!['S' as u8, 'S' as u8, 'H' as u8, '-' as u8];
    let first = data.take(4);
    assert(first[0] == data[0] && first[1] == data[1] && first[2] == data[2] && first[3]
        == data[3]);
    if first == start {
        assert(first[0] == start[0] && first[1] == start[1] && first[2] == start[2] && first[3]
            == start[3]);
    }
    if data[0] == 0x53 && data[1] == 0x53 && data[2] == 0x48 && data[3] == 0x2d {
        assert(first =~= start);
    }
}

} // verus!
