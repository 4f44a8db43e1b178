//! How QUIC packets are written (RFC 8999, RFC 9000), and that what is written is read back.

use crate::protocols::quic::{
    cid_at, cids_after, cids_view, crypto_step, initial_fields, initial_packet, initial_place,
    invariants_at, listed_versions, opened, packet_at, packet_number, packet_parsed, probe_result,
    sealed_part, unprotected, unsealed, var_len, varint, varint_at, with_cid, InitialAnswers,
    InitialCrypto, InitialPlace, LongHeaderPacketType, QuicConn, QuicError, QuicFrame, QuicPacket,
    QuicVersion,
};
use crate::protocols::tls::TlsModel;
use crate::protocols::ProbeResult;
use crate::text::{hex_of, law_hex_goes_piece_by_piece, lemma_hex_len};
use crate::wire::{be32, be32_bytes, law_be32_is_read_back};
use vstd::prelude::*;

verus! {

/// The first byte of a long header: the form bit, the fixed bit, two bits for the packet's
/// type and four bits that depend on it.
pub open spec fn long_first(fixed: bool, type_bits: int, low: int) -> u8 {
    (0x80 + (if fixed {
        0x40int
    } else {
        0
    }) + 0x10 * type_bits + low) as u8
}

/// The fields of a long header that every version has: first byte, version, destination and
/// source connection ID, each after its length.
pub open spec fn long_header(first: u8, version: u32, dcid: Seq<u8>, scid: Seq<u8>) -> Seq<u8> {
    seq![first] + be32_bytes(version as int) + seq![dcid.len() as u8] + dcid + seq![
        scid.len() as u8,
    ] + scid
}

/// A variable-length number, written in as many bytes as given: 1, 2, 4 or 8. The two high
/// bits tell how many.
pub open spec fn varint_bytes(n: int, size: int) -> Seq<u8> {
    if size == 1 {
        seq![n as u8]
    } else if size == 2 {
        seq![(0x40 + n / 0x100) as u8, (n % 0x100) as u8]
    } else if size == 4 {
        seq![
            (0x80 + n / 0x100_0000) as u8,
            (n / 0x1_0000 % 0x100) as u8,
            (n / 0x100 % 0x100) as u8,
            (n % 0x100) as u8,
        ]
    } else {
        seq![
            (0xC0 + n / 0x100_0000_0000_0000) as u8,
            (n / 0x1_0000_0000_0000 % 0x100) as u8,
            (n / 0x100_0000_0000 % 0x100) as u8,
            (n / 0x1_0000_0000 % 0x100) as u8,
            (n / 0x100_0000 % 0x100) as u8,
            (n / 0x1_0000 % 0x100) as u8,
            (n / 0x100 % 0x100) as u8,
            (n % 0x100) as u8,
        ]
    }
}

/// The number can be written in that many bytes.
pub open spec fn varint_fits(n: int, size: int) -> bool {
    ||| size == 1 && 0 <= n < 0x40
    ||| size == 2 && 0 <= n < 0x4000
    ||| size == 4 && 0 <= n < 0x4000_0000
    ||| size == 8 && 0 <= n < 0x4000_0000_0000_0000
}

/// A variable-length number is read back wherever it stands, in whatever size it was written.
pub proof fn law_varint_is_read_back(before: Seq<u8>, n: int, size: int, after: Seq<u8>)
    requires
        varint_fits(n, size),
    ensures
        varint_bytes(n, size).len() == size,
        varint_at(before + varint_bytes(n, size) + after, before.len() as int) == Some((n, size)),
{
    let b = varint_bytes(n, size);
    let s = before + b + after;
    let i = before.len() as int;
    assert(s[i] == b[0]);
    assert(var_len(b[0]) == size);
    assert(s.subrange(i, i + size) =~= b);
    reveal_with_fuel(varint, 8);
    if size == 1 {
        assert(varint(b) == n);
    } else if size == 2 {
        assert(b.drop_last() =~= seq![b[0]]);
        assert(varint(b) == n);
    } else if size == 4 {
        let b3 = b.drop_last();
        let b2 = b3.drop_last();
        assert(b2.drop_last() =~= seq![b[0]]);
        assert(varint(b2) == n / 0x1_0000);
        assert(varint(b3) == n / 0x100);
        assert(varint(b) == n);
    } else {
        let b7 = b.drop_last();
        let b6 = b7.drop_last();
        let b5 = b6.drop_last();
        let b4 = b5.drop_last();
        let b3 = b4.drop_last();
        let b2 = b3.drop_last();
        let b1 = b2.drop_last();
        assert(b1 =~= seq![b[0]]);
        assert(varint(b1) == n / 0x100_0000_0000_0000);
        assert(varint(b2) == n / 0x1_0000_0000_0000);
        assert(varint(b3) == n / 0x100_0000_0000);
        assert(varint(b4) == n / 0x1_0000_0000);
        assert(varint(b5) == n / 0x100_0000);
        assert(varint(b6) == n / 0x1_0000);
        assert(varint(b7) == n / 0x100);
        assert(varint(b) == n);
    }
}

/// The number of a version on the wire; greased and unknown versions have none of their own.
pub open spec fn version_number(v: QuicVersion) -> Option<u32> {
    match v {
        QuicVersion::ReservedNegotiation => Some(0),
        QuicVersion::Rfc9000 => Some(1),
        QuicVersion::Rfc9369 => Some(0x6b3343cf),
        QuicVersion::Draft27 => Some((0xff000000u32 + 27) as u32),
        QuicVersion::Draft28 => Some((0xff000000u32 + 28) as u32),
        QuicVersion::Draft29 => Some((0xff000000u32 + 29) as u32),
        QuicVersion::Draft30 => Some((0xff000000u32 + 30) as u32),
        QuicVersion::Draft31 => Some((0xff000000u32 + 31) as u32),
        QuicVersion::Draft32 => Some((0xff000000u32 + 32) as u32),
        QuicVersion::Draft33 => Some((0xff000000u32 + 33) as u32),
        QuicVersion::Draft34 => Some((0xff000000u32 + 34) as u32),
        QuicVersion::Mvfst27 => Some(0xfaceb002),
        QuicVersion::Greased => None,
        QuicVersion::Unknown => None,
    }
}

/// A version is told by its number, and a number that is no version's own is greased exactly
/// if the low half of each of its bytes is ten.
pub proof fn law_versions_are_told_by_their_numbers(n: u32, v: QuicVersion)
    ensures
        version_number(v) is Some ==> QuicVersion::of(version_number(v)->0) == v,
        version_number(QuicVersion::of(n)) matches Some(m) ==> m == n,
        QuicVersion::of(n) == QuicVersion::Greased <==> n % 16 == 10 && n / 0x100 % 16 == 10 && n
            / 0x1_0000 % 16 == 10 && n / 0x100_0000 % 16 == 10,
{
    assert((n & 0x0f0f0f0f == 0x0a0a0a0a) <==> (n % 16 == 10 && n / 0x100 % 16 == 10 && n
        / 0x1_0000 % 16 == 10 && n / 0x100_0000 % 16 == 10)) by (bit_vector);
}

proof fn lemma_invariants(
    first: u8,
    version: u32,
    dcid: Seq<u8>,
    scid: Seq<u8>,
    rest: Seq<u8>,
)
    requires
        dcid.len() <= 255,
        scid.len() <= 255,
    ensures
        ({
            let data = long_header(first, version, dcid, scid) + rest;
            &&& data[0] == first
            &&& data.len() >= 7 + dcid.len() + scid.len()
            &&& be32(data, 1) == version
            &&& cid_at(data, 5) == Some(dcid)
            &&& cid_at(data, 6int + dcid.len()) == Some(scid)
            &&& data.skip(7int + dcid.len() + scid.len()) == rest
            &&& long_header(first, version, dcid, scid).len() == 7 + dcid.len() + scid.len()
        }),
{
    let data = long_header(first, version, dcid, scid) + rest;
    let v = be32_bytes(version as int);
    let tail = seq![dcid.len() as u8] + dcid + seq![scid.len() as u8] + scid + rest;
    assert(data =~= seq![first] + v + tail);
    law_be32_is_read_back(seq![first], version as int, tail);
    assert(data[5] == dcid.len() as u8);
    assert(data.subrange(6, 6int + dcid.len()) =~= dcid);
    let at = 6int + dcid.len();
    assert(data[at] == scid.len() as u8);
    assert(data.subrange(at + 1, at + 1 + scid.len()) =~= scid);
    assert(data.skip(at + 1 + scid.len()) =~= rest);
}

/// The connection IDs that a long header is written with are those that it is read with,
/// whatever comes after them: in hexadecimal, each under its own name and with its own
/// length. So are the version, the bits of the first byte that depend on the type, and the
/// type, where the version defines one.
pub proof fn law_long_header_is_read_back<C: InitialCrypto>(
    crypto: &C,
    before: QuicConn,
    fixed: bool,
    type_bits: int,
    low: int,
    version: u32,
    dcid: Seq<u8>,
    scid: Seq<u8>,
    rest: Seq<u8>,
    dir: bool,
    after: QuicConn,
    packet: QuicPacket,
    next: usize,
)
    requires
        0 <= type_bits < 4,
        0 <= low < 16,
        dcid.len() <= 255,
        scid.len() <= 255,
        packet_parsed(
            crypto,
            before,
            long_header(long_first(fixed, type_bits, low), version, dcid, scid) + rest,
            0,
            dir,
            after,
            Ok((packet, next)),
        ),
    ensures
        packet.short_header is None,
        packet.long_header matches Some(h) && {
            &&& h.version == version
            &&& h.dcid@ == hex_of(dcid)
            &&& h.dcid_len == dcid.len()
            &&& h.scid@ == hex_of(scid)
            &&& h.scid_len == scid.len()
            &&& h.type_specific == low
            &&& h.packet_type == (if QuicVersion::of(version).invariants_only() {
                None
            } else if type_bits == 0 {
                Some(LongHeaderPacketType::Initial)
            } else if type_bits == 1 {
                Some(LongHeaderPacketType::ZeroRTT)
            } else if type_bits == 2 {
                Some(LongHeaderPacketType::Handshake)
            } else {
                Some(LongHeaderPacketType::Retry)
            })
        },
{
    let first = long_first(fixed, type_bits, low);
    lemma_invariants(first, version, dcid, scid, rest);
    assert(first >= 0x80 && first % 16 == low && first as int / 16 % 4 == type_bits);
    lemma_packet_view(packet);
}

/// What a packet is asked for is what its header holds under that name; an empty connection
/// ID is an empty text.
pub proof fn law_packets_answer_from_their_headers(
    packet: QuicPacket,
    version: u32,
    dcid: &str,
    scid: &str,
    bytes: u64,
)
    requires
        call_ensures(QuicPacket::version, (&packet,), version),
        call_ensures(QuicPacket::dcid, (&packet,), dcid),
        call_ensures(QuicPacket::scid, (&packet,), scid),
        call_ensures(QuicPacket::payload_bytes_count, (&packet,), bytes),
    ensures
        packet.long_header matches Some(h) ==> {
            &&& version == h.version
            &&& dcid@ == (if h.dcid_len > 0 { h.dcid@ } else { Seq::empty() })
            &&& scid@ == (if h.scid_len > 0 { h.scid@ } else { Seq::empty() })
        },
        packet.long_header is None ==> {
            &&& version == 0
            &&& scid@.len() == 0
            &&& packet.short_header matches Some(h) ==> match h.dcid {
                Some(id) => dcid@ == id@,
                None => dcid@.len() == 0,
            }
        },
        packet.payload_bytes_count matches Some(n) ==> bytes == n,
        packet.payload_bytes_count is None ==> bytes == 0,
{
    reveal_strlit("");
    assert(""@ =~= Seq::empty());
}

proof fn lemma_packet_view(packet: QuicPacket)
    ensures
        packet@.short_header is None <==> packet.short_header is None,
        packet.long_header matches Some(h) ==> packet@.long_header == Some(h@),
        packet.long_header is None ==> packet@.long_header is None,
{
}

/// A packet that is not an Initial one is what the bytes say.
proof fn lemma_parsed_model<C: InitialCrypto>(
    crypto: &C,
    before: QuicConn,
    data: Seq<u8>,
    dir: bool,
    after: QuicConn,
    r: Result<(QuicPacket, usize), QuicError>,
)
    requires
        packet_parsed(crypto, before, data, 0, dir, after, r),
        packet_at(cids_view(before.cids@), data, 0) matches Some(Ok(_)),
    ensures
        r matches Ok((packet, next)) && packet_at(cids_view(before.cids@), data, 0) == Some(
            Ok::<_, QuicError>((packet@, next as int)),
        ),
{
}

proof fn lemma_sealed_bytes(
    first: u8,
    version: u32,
    dcid: Seq<u8>,
    scid: Seq<u8>,
    size: int,
    payload: Seq<u8>,
    rest: Seq<u8>,
)
    requires
        dcid.len() <= 255,
        scid.len() <= 255,
        varint_fits(payload.len() as int, size),
    ensures
        ({
            let data = long_header(first, version, dcid, scid) + (varint_bytes(
                payload.len() as int,
                size,
            ) + payload + rest);
            varint_at(data, 7int + dcid.len() + scid.len()) == Some((payload.len() as int, size))
        }),
{
    let head = long_header(first, version, dcid, scid);
    let body = varint_bytes(payload.len() as int, size) + payload + rest;
    lemma_invariants(first, version, dcid, scid, body);
    law_varint_is_read_back(head, payload.len() as int, size, payload + rest);
    assert(head + body =~= head + varint_bytes(payload.len() as int, size) + (payload + rest));
}

proof fn lemma_sealed_model(
    cids: Seq<Seq<char>>,
    data: Seq<u8>,
    version: u32,
    dcid: Seq<u8>,
    scid: Seq<u8>,
    len: int,
    size: int,
)
    requires
        data.len() >= 7 + dcid.len() + scid.len(),
        data[0] >= 0x80,
        data[0] as int / 16 % 4 == 1 || data[0] as int / 16 % 4 == 2,
        be32(data, 1) == version,
        cid_at(data, 5) == Some(dcid),
        cid_at(data, 6int + dcid.len()) == Some(scid),
        QuicVersion::of(version) != QuicVersion::Unknown,
        !QuicVersion::of(version).invariants_only(),
        varint_at(data, 7int + dcid.len() + scid.len()) == Some((len, size)),
        7 + dcid.len() + scid.len() + size + len <= usize::MAX,
    ensures
        packet_at(cids, data, 0) matches Some(Ok((p, next))) && {
            &&& p.payload_bytes_count == Some(len as u64)
            &&& next == 7 + dcid.len() + scid.len() + size + len
            &&& p.long_header matches Some(h) && h.token is None && h.retry_tag is None
                && h.supported_versions is None
        },
{
}

/// A Handshake or 0-RTT packet is read whole: its payload is counted, and the next packet
/// begins right after it.
pub proof fn law_sealed_packet_is_read_back<C: InitialCrypto>(
    crypto: &C,
    before: QuicConn,
    fixed: bool,
    type_bits: int,
    low: int,
    version: u32,
    dcid: Seq<u8>,
    scid: Seq<u8>,
    size: int,
    payload: Seq<u8>,
    rest: Seq<u8>,
    dir: bool,
    after: QuicConn,
    r: Result<(QuicPacket, usize), QuicError>,
)
    requires
        type_bits == 1 || type_bits == 2,
        0 <= low < 16,
        dcid.len() <= 255,
        scid.len() <= 255,
        QuicVersion::of(version) != QuicVersion::Unknown,
        !QuicVersion::of(version).invariants_only(),
        varint_fits(payload.len() as int, size),
        7 + dcid.len() + scid.len() + size + payload.len() <= usize::MAX,
        packet_parsed(
            crypto,
            before,
            long_header(long_first(fixed, type_bits, low), version, dcid, scid) + (varint_bytes(
                payload.len() as int,
                size,
            ) + payload + rest),
            0,
            dir,
            after,
            r,
        ),
    ensures
        r matches Ok((packet, next)) && {
            &&& packet.payload_bytes_count == Some(payload.len() as u64)
            &&& next == 7 + dcid.len() + scid.len() + size + payload.len()
            &&& packet.long_header matches Some(h) && h.token is None && h.retry_tag is None
                && h.supported_versions is None
        },
{
    let first = long_first(fixed, type_bits, low);
    let body = varint_bytes(payload.len() as int, size) + payload + rest;
    let data = long_header(first, version, dcid, scid) + body;
    assert(first >= 0x80 && first as int / 16 % 4 == type_bits);
    lemma_invariants(first, version, dcid, scid, body);
    lemma_sealed_bytes(first, version, dcid, scid, size, payload, rest);
    lemma_sealed_model(
        cids_view(before.cids@),
        data,
        version,
        dcid,
        scid,
        payload.len() as int,
        size,
    );
    lemma_parsed_model(crypto, before, data, dir, after, r);
    lemma_packet_view((r->Ok_0).0);
}

/// A Retry packet gives its token and the tag that ends the datagram.
pub proof fn law_retry_packet_is_read_back<C: InitialCrypto>(
    crypto: &C,
    before: QuicConn,
    fixed: bool,
    low: int,
    version: u32,
    dcid: Seq<u8>,
    scid: Seq<u8>,
    token: Seq<u8>,
    tag: Seq<u8>,
    dir: bool,
    after: QuicConn,
    r: Result<(QuicPacket, usize), QuicError>,
)
    requires
        0 <= low < 16,
        dcid.len() <= 255,
        scid.len() <= 255,
        0 < token.len() <= u64::MAX,
        tag.len() == 16,
        QuicVersion::of(version) != QuicVersion::Unknown,
        !QuicVersion::of(version).invariants_only(),
        packet_parsed(
            crypto,
            before,
            long_header(long_first(fixed, 3, low), version, dcid, scid) + (token + tag),
            0,
            dir,
            after,
            r,
        ),
    ensures
        r matches Ok((packet, next)) && {
            &&& next == 7 + dcid.len() + scid.len() + token.len() + 16
            &&& packet.payload_bytes_count is None
            &&& packet.long_header matches Some(h) && {
                &&& h.token_len == Some(token.len() as u64)
                &&& h.token matches Some(t) && t@ == hex_of(token)
                &&& h.retry_tag matches Some(t) && t@ == hex_of(tag)
            }
        },
{
    let first = long_first(fixed, 3, low);
    let head = long_header(first, version, dcid, scid);
    let data = head + (token + tag);
    lemma_invariants(first, version, dcid, scid, token + tag);
    assert(first >= 0x80 && first as int / 16 % 4 == 3);
    let at = head.len() as int;
    let end = data.len() - 16;
    assert(data.subrange(at, end) =~= token);
    assert(data.subrange(end, data.len() as int) =~= tag);
    lemma_packet_view((r->Ok_0).0);
}

/// Versions, one after the other.
pub open spec fn version_list(versions: Seq<u32>) -> Seq<u8>
    decreases versions.len(),
{
    if versions.len() == 0 {
        Seq::empty()
    } else {
        version_list(versions.drop_last()) + be32_bytes(versions.last() as int)
    }
}

proof fn lemma_version_list(before: Seq<u8>, versions: Seq<u32>, after: Seq<u8>)
    ensures
        version_list(versions).len() == 4 * versions.len(),
        forall|i: int|
            0 <= i < versions.len() ==> be32(
                before + version_list(versions) + after,
                before.len() + 4 * i,
            ) == #[trigger] versions[i],
    decreases versions.len(),
{
    if versions.len() > 0 {
        let init = versions.drop_last();
        let last = be32_bytes(versions.last() as int);
        lemma_version_list(before, init, last + after);
        let s = before + version_list(versions) + after;
        assert(s =~= before + version_list(init) + (last + after));
        law_be32_is_read_back(before + version_list(init), versions.last() as int, after);
        assert(s =~= (before + version_list(init)) + last + after);
        assert forall|i: int| 0 <= i < versions.len() implies be32(s, before.len() + 4 * i)
            == #[trigger] versions[i] by {
            if i < init.len() {
                assert(init[i] == versions[i]);
            }
        }
    }
}

/// A Version Negotiation packet gives the versions that it lists, in order, and fewer than
/// four bytes that may be left.
pub proof fn law_version_negotiation_is_read_back<C: InitialCrypto>(
    crypto: &C,
    before: QuicConn,
    first: u8,
    dcid: Seq<u8>,
    scid: Seq<u8>,
    versions: Seq<u32>,
    left: Seq<u8>,
    dir: bool,
    after: QuicConn,
    r: Result<(QuicPacket, usize), QuicError>,
)
    requires
        first >= 0x80,
        dcid.len() <= 255,
        scid.len() <= 255,
        left.len() < 4,
        packet_parsed(
            crypto,
            before,
            long_header(first, 0, dcid, scid) + (version_list(versions) + left),
            0,
            dir,
            after,
            r,
        ),
    ensures
        r matches Ok((packet, next)) && {
            &&& next == 7 + dcid.len() + scid.len() + 4 * versions.len() + left.len()
            &&& packet.payload_bytes_count == Some(left.len() as u64)
            &&& packet.long_header matches Some(h) && {
                &&& h.packet_type is None
                &&& h.supported_versions matches Some(v) && v@ == versions
            }
        },
{
    let head = long_header(first, 0, dcid, scid);
    let body = version_list(versions) + left;
    let data = head + body;
    lemma_invariants(first, 0, dcid, scid, body);
    lemma_version_list(head, versions, left);
    assert(data =~= head + version_list(versions) + left);
    let n = (data.len() - head.len()) / 4;
    assert(n == versions.len());
    assert(listed_versions(data, head.len() as int) =~= versions);
    lemma_packet_view((r->Ok_0).0);
}

proof fn lemma_initial_bytes(
    first: u8,
    version: u32,
    dcid: Seq<u8>,
    scid: Seq<u8>,
    token_size: int,
    token: Seq<u8>,
    size: int,
    protected: Seq<u8>,
    rest: Seq<u8>,
)
    requires
        dcid.len() <= 255,
        scid.len() <= 255,
        varint_fits(token.len() as int, token_size),
        varint_fits(protected.len() as int, size),
    ensures
        ({
            let data = long_header(first, version, dcid, scid) + (varint_bytes(
                token.len() as int,
                token_size,
            ) + token + (varint_bytes(protected.len() as int, size) + protected + rest));
            let at = 7int + dcid.len() + scid.len();
            let end = at + token_size + token.len();
            &&& initial_fields(data, at) is Some
            &&& (initial_fields(data, at)->0).token == token
            &&& (initial_fields(data, at)->0).packet_len == protected.len()
            &&& (initial_fields(data, at)->0).payload == end + size
        }),
{
    let head = long_header(first, version, dcid, scid);
    let tl = varint_bytes(token.len() as int, token_size);
    let pl = varint_bytes(protected.len() as int, size);
    let tail = pl + protected + rest;
    let data = head + (tl + token + tail);
    lemma_invariants(first, version, dcid, scid, tl + token + tail);
    law_varint_is_read_back(head, token.len() as int, token_size, token + tail);
    assert(data =~= head + tl + (token + tail));
    let front = head + tl + token;
    law_varint_is_read_back(front, protected.len() as int, size, protected + rest);
    assert(data =~= front + pl + (protected + rest));
    assert(data.subrange(head.len() + token_size, front.len() as int) =~= token);
}

proof fn lemma_opened_model<C: InitialCrypto>(
    crypto: &C,
    before: QuicConn,
    data: Seq<u8>,
    dir: bool,
    after: QuicConn,
    packet: QuicPacket,
    next: usize,
    version: u32,
    dcid: Seq<u8>,
    scid: Seq<u8>,
)
    requires
        packet_parsed(crypto, before, data, 0, dir, after, Ok((packet, next))),
        data.len() >= 7 + dcid.len() + scid.len(),
        data[0] >= 0x80,
        data[0] as int / 16 % 4 == 0,
        be32(data, 1) == version,
        cid_at(data, 5) == Some(dcid),
        cid_at(data, 6int + dcid.len()) == Some(scid),
        !QuicVersion::of(version).invariants_only(),
        initial_fields(data, 7int + dcid.len() + scid.len()) is Some,
    ensures
        ({
            let f = initial_fields(data, 7int + dcid.len() + scid.len())->0;
            &&& packet.payload_bytes_count == Some(f.packet_len as u64)
            &&& next == f.payload + f.packet_len
            &&& packet.frames is Some
            &&& packet.long_header matches Some(h) && {
                &&& h.token_len == Some(f.token.len() as u64)
                &&& h.token matches Some(t) && t@ == hex_of(f.token)
                &&& h.retry_tag is None
            }
        }),
{
    let inv = invariants_at(data, 0)->Ok_0;
    let f = initial_fields(data, inv.next)->0;
    let at = initial_place(0, inv, f);
    let (a, o) = choose|a: InitialAnswers, o: Result<(Vec<QuicFrame>, usize), QuicError>|
        {
            &&& #[trigger] opened(crypto, before, data, at, dir, a, after, o)
            &&& match o {
                Ok((frames, n)) => packet@ == initial_packet(inv, f) && packet.frames == Some(
                    frames,
                ) && n == next,
                Err(e) => false,
            }
        };
    assert(opened(crypto, before, data, at, dir, a, after, o));
    reveal(unsealed);
    lemma_packet_view(packet);
}

/// An Initial packet that is opened gives its token and the length of its protected part, and
/// the next packet begins right after that.
pub proof fn law_initial_packet_is_read_back<C: InitialCrypto>(
    crypto: &C,
    before: QuicConn,
    fixed: bool,
    low: int,
    version: u32,
    dcid: Seq<u8>,
    scid: Seq<u8>,
    token_size: int,
    token: Seq<u8>,
    size: int,
    protected: Seq<u8>,
    rest: Seq<u8>,
    dir: bool,
    after: QuicConn,
    packet: QuicPacket,
    next: usize,
)
    requires
        0 <= low < 16,
        dcid.len() <= 255,
        scid.len() <= 255,
        varint_fits(token.len() as int, token_size),
        varint_fits(protected.len() as int, size),
        !QuicVersion::of(version).invariants_only(),
        packet_parsed(
            crypto,
            before,
            long_header(long_first(fixed, 0, low), version, dcid, scid) + (varint_bytes(
                token.len() as int,
                token_size,
            ) + token + (varint_bytes(protected.len() as int, size) + protected + rest)),
            0,
            dir,
            after,
            Ok((packet, next)),
        ),
    ensures
        packet.payload_bytes_count == Some(protected.len() as u64),
        next == 7 + dcid.len() + scid.len() + token_size + token.len() + size + protected.len(),
        packet.frames is Some,
        packet.long_header matches Some(h) && {
            &&& h.token_len == Some(token.len() as u64)
            &&& h.token matches Some(t) && t@ == hex_of(token)
            &&& h.retry_tag is None
        },
{
    let first = long_first(fixed, 0, low);
    let body = varint_bytes(token.len() as int, token_size) + token + (varint_bytes(
        protected.len() as int,
        size,
    ) + protected + rest);
    let data = long_header(first, version, dcid, scid) + body;
    assert(first >= 0x80 && first as int / 16 % 4 == 0);
    lemma_invariants(first, version, dcid, scid, body);
    lemma_initial_bytes(first, version, dcid, scid, token_size, token, size, protected, rest);
    lemma_opened_model(
        crypto,
        before,
        data,
        dir,
        after,
        packet,
        next,
        version,
        dcid,
        scid,
    );
}

/// A long header makes its connection IDs known, unless they are empty, and no others.
pub proof fn law_connection_ids_become_known(
    cids: Seq<Seq<char>>,
    first: u8,
    version: u32,
    dcid: Seq<u8>,
    scid: Seq<u8>,
    rest: Seq<u8>,
    id: Seq<char>,
)
    requires
        first >= 0x80,
        dcid.len() <= 255,
        scid.len() <= 255,
        QuicVersion::of(version) != QuicVersion::Unknown,
    ensures
        cids_after(cids, long_header(first, version, dcid, scid) + rest, 0).contains(id) <==> {
            ||| cids.contains(id)
            ||| dcid.len() > 0 && id == hex_of(dcid)
            ||| scid.len() > 0 && id == hex_of(scid)
        },
{
    lemma_invariants(first, version, dcid, scid, rest);
    lemma_with_cid(cids, dcid, id);
    lemma_with_cid(with_cid(cids, dcid), scid, id);
}

proof fn lemma_with_cid(cids: Seq<Seq<char>>, bytes: Seq<u8>, id: Seq<char>)
    ensures
        with_cid(cids, bytes).contains(id) <==> cids.contains(id) || (bytes.len() > 0 && id
            == hex_of(bytes)),
{
    let after = with_cid(cids, bytes);
    if bytes.len() > 0 && !cids.contains(hex_of(bytes)) {
        assert(after[cids.len() as int] == hex_of(bytes));
        if cids.contains(id) {
            let k = choose|k: int| 0 <= k < cids.len() && cids[k] == id;
            assert(after[k] == id);
        }
    }
}

/// A short header with a known connection ID of at most twenty bytes reports that ID, and all
/// bytes after it as payload.
pub proof fn law_short_header_is_read_back<C: InitialCrypto>(
    crypto: &C,
    before: QuicConn,
    first: u8,
    id: Seq<u8>,
    payload: Seq<u8>,
    dir: bool,
    after: QuicConn,
    r: Result<(QuicPacket, usize), QuicError>,
)
    requires
        0x40 <= first < 0x80,
        0 < id.len() <= 20,
        payload.len() <= u64::MAX,
        cids_view(before.cids@) == seq![hex_of(id)],
        packet_parsed(crypto, before, seq![first] + id + payload, 0, dir, after, r),
    ensures
        r matches Ok((packet, next)) && {
            &&& next == 1 + id.len() + payload.len()
            &&& packet.long_header is None
            &&& packet.payload_bytes_count == Some(payload.len() as u64)
            &&& packet.short_header matches Some(h) && h.dcid matches Some(d) && d@ == hex_of(id)
        },
{
    let data = seq![first] + id + payload;
    let n: int = if data.len() < 21 {
        data.len() - 1
    } else {
        20
    };
    let cids = cids_view(before.cids@);
    let shown = data.subrange(1, 1 + n);
    assert(shown =~= id + payload.take(n - id.len()));
    law_hex_goes_piece_by_piece(id, payload.take(n - id.len()));
    lemma_hex_len(id);
    assert(hex_of(shown).take(hex_of(id).len() as int) =~= hex_of(id));
    assert(cids.last() == hex_of(id));
    lemma_packet_view((r->Ok_0).0);
}

/// Header protection that is put on is taken off again: the counter is the packet number, the
/// authenticated data is the header as it was before, and what is sealed is what was sealed.
pub proof fn law_header_protection_is_taken_off(
    first: u8,
    header: Seq<u8>,
    number: Seq<u8>,
    mask: Seq<u8>,
    ciphertext: Seq<u8>,
    tag: Seq<u8>,
    rest: Seq<u8>,
)
    requires
        first as int / 4 % 4 == 0,
        number.len() == first % 4 + 1,
        mask.len() == 5,
    ensures
        ({
            let hidden = Seq::new(number.len(), |i: int| number[i] ^ mask[i + 1]);
            let data = seq![first ^ (mask[0] % 16)] + header + hidden + ciphertext + tag + rest;
            let n = number.len() as int;
            let s = sealed_part(
                data,
                0,
                1int + header.len(),
                n + ciphertext.len() + tag.len(),
                mask,
                tag.len() as int,
            );
            &&& s is Ok
            &&& (s->Ok_0).ad == seq![first] + header + number
            &&& (s->Ok_0).ciphertext == ciphertext
            &&& (s->Ok_0).tag == tag
            &&& (s->Ok_0).next == 1 + header.len() + n + ciphertext.len() + tag.len()
            &&& n == 1 ==> (s->Ok_0).counter == number[0]
            &&& n == 2 ==> (s->Ok_0).counter == number[0] * 0x100 + number[1]
            &&& n == 3 ==> (s->Ok_0).counter == number[0] * 0x1_0000 + number[1] * 0x100
                + number[2]
            &&& n == 4 && number[0] < 0x80 ==> (s->Ok_0).counter == number[0] * 0x100_0000
                + number[1] * 0x1_0000 + number[2] * 0x100 + number[3]
        }),
{
    let hidden = Seq::new(number.len(), |i: int| number[i] ^ mask[i + 1]);
    let m = mask[0] % 16;
    let data = seq![first ^ m] + header + hidden + ciphertext + tag + rest;
    let payload = 1 + header.len() as int;
    let n = number.len() as int;
    assert((first ^ m) ^ m == first) by (bit_vector);
    assert(data[0] == first ^ m);
    assert(unprotected(data[0], mask) == first);
    let read = packet_number(data, payload, mask, n);
    assert forall|i: int| 0 <= i < n implies read[i] == number[i] by {
        let x = number[i];
        let y = mask[i + 1];
        assert(data[payload + i] == hidden[i]);
        assert((x ^ y) ^ y == x) by (bit_vector);
    }
    assert(read =~= number);
    let start = payload + n;
    let end = start + ciphertext.len();
    assert(data.subrange(1, payload) =~= header);
    assert(data.subrange(start, end as int) =~= ciphertext);
    assert(data.subrange(end as int, end + tag.len()) =~= tag);
}

/// A long header is taken for QUIC exactly if its version is known or greased, whatever its
/// other bits are; a short header may be one if its fixed bit is set.
pub proof fn law_headers_are_recognized(
    fixed: bool,
    type_bits: int,
    low: int,
    version: u32,
    rest: Seq<u8>,
    short: Seq<u8>,
)
    requires
        0 <= type_bits < 4,
        0 <= low < 16,
        short.len() > 0,
        short[0] < 0x80,
    ensures
        probe_result(seq![long_first(fixed, type_bits, low)] + be32_bytes(version as int) + rest)
            == (if version_number(QuicVersion::of(version)) is Some || QuicVersion::of(version)
            == QuicVersion::Greased {
            ProbeResult::Certain
        } else {
            ProbeResult::NotForUs
        }),
        probe_result(short) == (if short[0] >= 0x40 {
            ProbeResult::Unsure
        } else {
            ProbeResult::NotForUs
        }),
{
    let first = long_first(fixed, type_bits, low);
    law_be32_is_read_back(seq![first], version as int, rest);
    let data = seq![first] + be32_bytes(version as int) + rest;
    assert(data[0] == first);
}

/// Handshake bytes that come in pieces are put together: while no message can be made of
/// them, they wait, and the next piece has the same effect as if both had come at once.
pub proof fn law_handshake_bytes_add_up(
    tls: TlsModel,
    buffer: Seq<u8>,
    first: Seq<u8>,
    second: Seq<u8>,
    dir: bool,
)
    requires
        first.len() > 0,
        second.len() > 0,
        !crypto_step(tls, buffer, first, dir).2,
    ensures
        crypto_step(tls, buffer, first, dir).0 == tls,
        crypto_step(tls, buffer, first, dir).1 == buffer + first,
        crypto_step(tls, crypto_step(tls, buffer, first, dir).1, second, dir) == crypto_step(
            tls,
            buffer,
            first + second,
            dir,
        ),
{
    assert(buffer + first + second =~= buffer + (first + second));
}

/// What an Initial packet of one side holds is kept apart from what the other side sent, and
/// one that cannot be opened changes neither the handshake nor what was received of it.
pub proof fn law_initial_packets_go_to_their_side<C: InitialCrypto>(
    crypto: &C,
    before: QuicConn,
    data: Seq<u8>,
    at: InitialPlace,
    dir: bool,
    a: InitialAnswers,
    after: QuicConn,
    r: Result<(Vec<QuicFrame>, usize), QuicError>,
)
    requires
        opened(crypto, before, data, at, dir, a, after, r),
    ensures
        dir ==> after.server_buffer@ == before.server_buffer@,
        !dir ==> after.client_buffer@ == before.client_buffer@,
        a.derived is Err || unsealed(data, at, a) is Err ==> r is Err && after.tls@ == before.tls@
            && after.client_buffer@ == before.client_buffer@ && after.server_buffer@
            == before.server_buffer@,
        before.initial_secret matches Some(secret) ==> after.initial_secret == Some(secret),
        before.initial_secret is None && a.derived is Ok ==> (
        after.initial_secret matches Some(secret) && secret.dcid@ == at.dcid && secret.version
            == at.version),
{
}

} // verus!
