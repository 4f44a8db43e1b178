//! Prefix-preserving address anonymization.
//!
//! Two addresses that share a prefix of some length share a prefix of just that length once
//! they are anonymized, and no two addresses are anonymized to the same one.

use crate::conntrack::pdu::{FiveTuple, IpAddr, SocketAddr};
use crate::wire::{be128, copy_range, read_be128};
use aes::cipher::{BlockEncrypt, KeyInit};
use vstd::arithmetic::power2::{
    lemma2_to64, lemma_pow2_adds, lemma_pow2_pos, lemma_pow2_strictly_increases,
    lemma_pow2_unfold, pow2,
};
use vstd::arithmetic::div_mod::{lemma_basic_div, lemma_div_denominator};
use vstd::prelude::*;

verus! {

/// A block as AES-128 encrypts it under a key.
pub uninterp spec fn aes128(key: Seq<u8>, block: Seq<u8>) -> Seq<u8>;

/// Calls `aes::Aes128::new_from_slice` and `encrypt_block` of the cipher that it returns.
/// The result is a function of the key and the block, and as long as a block.
#[verifier::external_body]
fn encrypt_block(key: &[u8], block: &[u8]) -> (r: Vec<u8>)
    requires
        key@.len() == 16,
        block@.len() == 16,
    ensures
        r@ == aes128(key@, block@),
        r@.len() == 16,
{
    let cipher = aes::Aes128::new_from_slice(key).expect("16-byte AES key is always valid");
    let mut block = aes::Block::clone_from_slice(block);
    cipher.encrypt_block(&mut block);
    block.to_vec()
}

/// The `len` bytes of a number, most significant first.
pub open spec fn be_bytes(n: int, len: nat) -> Seq<u8>
    decreases len,
{
    if len == 0 {
        Seq::empty()
    } else {
        be_bytes(n / 256, (len - 1) as nat).push((n % 256) as u8)
    }
}

fn to_be_bytes(n: u128, len: usize) -> (r: Vec<u8>)
    ensures
        r@ == be_bytes(n as int, len as nat),
        r@.len() == len,
    decreases len,
{
    if len == 0 {
        let r: Vec<u8> = Vec::new();
        assert(r@ =~= Seq::empty());
        r
    } else {
        let mut r = to_be_bytes(n / 256, len - 1);
        r.push((n % 256) as u8);
        r
    }
}

/// Input to the cipher for the bit at position `i` (0 is the most significant): the `i` bits
/// of `prefix`, a zero, and the bits of the pad that come after those.
pub open spec fn cipher_input(prefix: int, pad: int, i: int) -> int {
    prefix * pow2((127 - i) as nat) * 2 + pad % (pow2((127 - i) as nat) as int)
}

/// Whether the bit that follows an anonymized prefix of `i` bits is flipped, as 1 or 0: the
/// first bit of the encrypted input.
pub open spec fn flip(key: Seq<u8>, pad: int, prefix: int, i: int) -> int {
    aes128(key, be_bytes(cipher_input(prefix, pad, i), 16))[0] as int / 128
}

/// The first `i` bits of an address of `width` bits.
pub open spec fn prefix_of(ip: int, width: int, i: int) -> int {
    ip / (pow2((width - i) as nat) as int)
}

/// The first `i` bits of an anonymized address: each is the address's own bit, flipped or
/// not as the anonymized bits before it decide.
pub open spec fn anonymized_prefix(key: Seq<u8>, pad: int, ip: int, width: int, i: int) -> int
    decreases i,
{
    if i <= 0 {
        0
    } else {
        let before = anonymized_prefix(key, pad, ip, width, i - 1);
        2 * before + (prefix_of(ip, width, i) % 2 + flip(key, pad, before, i - 1)) % 2
    }
}

/// The address that an address is anonymized to.
pub open spec fn anonymized(key: Seq<u8>, pad: int, ip: IpAddr) -> IpAddr {
    match ip {
        IpAddr::V4(n) => IpAddr::V4(anonymized_prefix(key, pad, n as int, 32, 32) as u32),
        IpAddr::V6(n) => IpAddr::V6(anonymized_prefix(key, pad, n as int, 128, 128) as u128),
    }
}

proof fn lemma_powers()
    ensures
        pow2(0) == 1,
        pow2(31) == 0x8000_0000,
        pow2(32) == 0x1_0000_0000,
        pow2(127) == 0x8000_0000_0000_0000_0000_0000_0000_0000,
        pow2(128) == 0x1_0000_0000_0000_0000_0000_0000_0000_0000,
{
    lemma2_to64();
    lemma_pow2_adds(64, 64);
    lemma_pow2_unfold(128);
    lemma_pow2_unfold(32);
}

proof fn lemma_prefix_step(ip: int, width: int, i: int)
    requires
        0 <= ip,
        0 < i <= width,
    ensures
        prefix_of(ip, width, i - 1) == prefix_of(ip, width, i) / 2,
{
    lemma_pow2_unfold((width - i + 1) as nat);
    lemma_pow2_pos((width - i) as nat);
    let p = pow2((width - i) as nat) as int;
    lemma_div_denominator(ip, p, 2);
    assert(p * 2 == 2 * p);
}

proof fn lemma_flip(key: Seq<u8>, pad: int, prefix: int, i: int)
    ensures
        0 <= flip(key, pad, prefix, i) <= 1,
{
}

proof fn lemma_anonymized_bound(key: Seq<u8>, pad: int, ip: int, width: int, i: int)
    requires
        0 <= i <= width,
    ensures
        0 <= anonymized_prefix(key, pad, ip, width, i) < pow2(i as nat),
    decreases i,
{
    if i > 0 {
        lemma_anonymized_bound(key, pad, ip, width, i - 1);
        lemma_pow2_unfold(i as nat);
    } else {
        lemma_pow2_pos(0);
    }
}

/// Two addresses agree in their first `i` bits exactly if they agree there once they are
/// anonymized.
proof fn lemma_prefixes_correspond(key: Seq<u8>, pad: int, a: int, b: int, width: int, i: int)
    requires
        0 <= a < pow2(width as nat),
        0 <= b < pow2(width as nat),
        0 <= i <= width,
    ensures
        prefix_of(a, width, i) == prefix_of(b, width, i) <==> anonymized_prefix(
            key,
            pad,
            a,
            width,
            i,
        ) == anonymized_prefix(key, pad, b, width, i),
    decreases i,
{
    if i > 0 {
        lemma_prefixes_correspond(key, pad, a, b, width, i - 1);
        lemma_prefix_step(a, width, i);
        lemma_prefix_step(b, width, i);
        let x = anonymized_prefix(key, pad, a, width, i - 1);
        let y = anonymized_prefix(key, pad, b, width, i - 1);
        lemma_flip(key, pad, x, i - 1);
        lemma_flip(key, pad, y, i - 1);
    } else {
        lemma_pow2_pos(width as nat);
        lemma_basic_div(a, pow2(width as nat) as int);
        lemma_basic_div(b, pow2(width as nat) as int);
    }
}

/// The first bits of an anonymized address are the anonymized first bits.
proof fn lemma_anonymized_prefix(key: Seq<u8>, pad: int, ip: int, width: int, i: int, k: int)
    requires
        0 <= k <= i <= width,
    ensures
        anonymized_prefix(key, pad, ip, width, k) == prefix_of(
            anonymized_prefix(key, pad, ip, width, i),
            i,
            k,
        ),
    decreases i - k,
{
    lemma_anonymized_bound(key, pad, ip, width, i);
    let full = anonymized_prefix(key, pad, ip, width, i);
    if k < i {
        lemma_anonymized_prefix(key, pad, ip, width, i, k + 1);
        lemma_prefix_step(full, i, k + 1);
        lemma_flip(key, pad, anonymized_prefix(key, pad, ip, width, k), k);
    } else {
        lemma_powers();
        assert(full / 1 == full);
    }
}

/// Two addresses share their first `k` bits exactly if they share them once they are
/// anonymized.
pub proof fn law_prefixes_are_preserved(
    key: Seq<u8>,
    pad: int,
    a: int,
    b: int,
    width: int,
    k: int,
)
    requires
        0 <= a < pow2(width as nat),
        0 <= b < pow2(width as nat),
        0 <= k <= width,
    ensures
        prefix_of(a, width, k) == prefix_of(b, width, k) <==> prefix_of(
            anonymized_prefix(key, pad, a, width, width),
            width,
            k,
        ) == prefix_of(anonymized_prefix(key, pad, b, width, width), width, k),
{
    lemma_prefixes_correspond(key, pad, a, b, width, k);
    lemma_anonymized_prefix(key, pad, a, width, width, k);
    lemma_anonymized_prefix(key, pad, b, width, width, k);
}

proof fn lemma_whole(n: int)
    ensures
        n / 1 == n,
{
    vstd::arithmetic::div_mod::lemma_div_basics(n);
}

/// Different addresses are anonymized to different addresses, of the same kind as before.
pub proof fn law_anonymization_is_injective(key: Seq<u8>, pad: int, a: IpAddr, b: IpAddr)
    ensures
        a is V4 == anonymized(key, pad, a) is V4,
        anonymized(key, pad, a) == anonymized(key, pad, b) ==> a == b,
{
    lemma_powers();
    match (a, b) {
        (IpAddr::V4(m), IpAddr::V4(n)) => {
            lemma_prefixes_correspond(key, pad, m as int, n as int, 32, 32);
            lemma_anonymized_bound(key, pad, m as int, 32, 32);
            lemma_anonymized_bound(key, pad, n as int, 32, 32);
            lemma_whole(m as int);
            lemma_whole(n as int);
        },
        (IpAddr::V6(m), IpAddr::V6(n)) => {
            lemma_prefixes_correspond(key, pad, m as int, n as int, 128, 128);
            lemma_anonymized_bound(key, pad, m as int, 128, 128);
            lemma_anonymized_bound(key, pad, n as int, 128, 128);
            lemma_whole(m as int);
            lemma_whole(n as int);
        },
        _ => {},
    }
}

/// The bit of an anonymized address that takes the place of `bit`, given what the cipher
/// made of its input: `bit`, flipped if the first bit of the block is set.
pub fn anonymized_bit(block: &[u8], bit: u8) -> (b: u8)
    requires
        block@.len() > 0,
        bit <= 1,
    ensures
        b == (bit + block@[0] / 128) % 2,
{
    (bit + block[0] / 128) % 2
}

/// Anonymizes addresses under a key.
pub struct CryptoPAN {
    pub key: Vec<u8>,
    pub pad: u128,
}

impl CryptoPAN {
    pub open spec fn wf(&self) -> bool {
        self.key@.len() == 16
    }

    /// The first half of the key is the cipher's; the second half, encrypted, is the pad.
    pub fn new(key: &[u8; 32]) -> (c: CryptoPAN)
        ensures
            c.wf(),
            c.key@ == key@.subrange(0, 16),
            c.pad == be128(aes128(key@.subrange(0, 16), key@.subrange(16, 32)), 0),
    {
        let bytes = vstd::array::array_as_slice(key);
        let cipher_key = copy_range(bytes, 0, 16);
        let seed = copy_range(bytes, 16, 32);
        let block = encrypt_block(cipher_key.as_slice(), seed.as_slice());
        let pad: u128 = read_be128(block.as_slice(), 0);
        CryptoPAN { key: cipher_key, pad }
    }

    /// Anonymizes an address.
    pub fn anonymize(&self, ip: IpAddr) -> (r: IpAddr)
        requires
            self.wf(),
        ensures
            r == anonymized(self.key@, self.pad as int, ip),
    {
        match ip {
            IpAddr::V4(n) => IpAddr::V4(self.anonymize_ipv4(n)),
            IpAddr::V6(n) => IpAddr::V6(self.anonymize_ipv6(n)),
        }
    }

    fn anonymize_ipv4(&self, ip: u32) -> (r: u32)
        requires
            self.wf(),
        ensures
            IpAddr::V4(r) == anonymized(self.key@, self.pad as int, IpAddr::V4(ip)),
    {
        proof {
            lemma_powers();
            lemma_anonymized_bound(self.key@, self.pad as int, ip as int, 32, 32);
        }
        self.anonymize_bits(ip as u128, 32, 0x8000_0000) as u32
    }

    fn anonymize_ipv6(&self, ip: u128) -> (r: u128)
        requires
            self.wf(),
        ensures
            IpAddr::V6(r) == anonymized(self.key@, self.pad as int, IpAddr::V6(ip)),
    {
        proof {
            lemma_powers();
        }
        self.anonymize_bits(ip, 128, 0x8000_0000_0000_0000_0000_0000_0000_0000)
    }

    /// Anonymizes the addresses of a five-tuple. Its ports and its protocol stay.
    pub fn anonymize_fivetuple(&self, ft: &FiveTuple) -> (r: FiveTuple)
        requires
            self.wf(),
        ensures
            r.orig.ip == anonymized(self.key@, self.pad as int, ft.orig.ip),
            r.resp.ip == anonymized(self.key@, self.pad as int, ft.resp.ip),
            r.orig.port == ft.orig.port,
            r.resp.port == ft.resp.port,
            r.proto == ft.proto,
    {
        FiveTuple {
            orig: SocketAddr { ip: self.anonymize(ft.orig.ip), port: ft.orig.port },
            resp: SocketAddr { ip: self.anonymize(ft.resp.ip), port: ft.resp.port },
            proto: ft.proto,
        }
    }

    /// Input to the cipher for the bit that follows an anonymized prefix, where `half` is
    /// what that bit counts in a number of 128 bits.
    fn make_input(&self, prefix: u128, half: u128, Ghost(i): Ghost<int>) -> (r: Vec<u8>)
        requires
            0 <= i <= 127,
            half == pow2((127 - i) as nat),
            prefix < pow2(i as nat),
        ensures
            r@ == be_bytes(cipher_input(prefix as int, self.pad as int, i), 16),
            r@.len() == 16,
    {
        proof {
            lemma_powers();
            lemma_pow2_adds(i as nat, (127 - i) as nat);
            lemma_pow2_pos((127 - i) as nat);
            let p = prefix as int;
            let h = half as int;
            let all = pow2(i as nat) as int;
            assert((p + 1) * h <= all * h) by (nonlinear_arith)
                requires
                    p + 1 <= all,
                    0 <= h,
            ;
            assert((p + 1) * h == p * h + h) by (nonlinear_arith);
            assert(0 <= p * h) by (nonlinear_arith)
                requires
                    0 <= p,
                    0 <= h,
            ;
        }
        let value: u128 = prefix * half * 2 + self.pad % half;
        to_be_bytes(value, 16)
    }

    /// Anonymizes an address of `width` bits, the first of which counts `top`.
    fn anonymize_bits(&self, ip: u128, width: u32, top: u128) -> (r: u128)
        requires
            self.wf(),
            1 <= width <= 128,
            top == pow2((width - 1) as nat),
        ensures
            r == anonymized_prefix(
                self.key@,
                self.pad as int,
                ip as int,
                width as int,
                width as int,
            ),
    {
        let mut result: u128 = 0;
        let mut unit: u128 = top;
        let mut half: u128 = 0x8000_0000_0000_0000_0000_0000_0000_0000;
        let mut i: u32 = 0;
        proof {
            lemma_powers();
        }
        while i < width
            invariant
                i <= width <= 128,
                self.wf(),
                i < width ==> unit == pow2((width - 1 - i) as nat),
                i < 128 ==> half == pow2((127 - i) as nat),
                result == anonymized_prefix(
                    self.key@,
                    self.pad as int,
                    ip as int,
                    width as int,
                    i as int,
                ),
            decreases width - i,
        {
            proof {
                lemma_powers();
                lemma_pow2_pos((width - 1 - i) as nat);
                lemma_anonymized_bound(
                    self.key@,
                    self.pad as int,
                    ip as int,
                    width as int,
                    i as int,
                );
                lemma_anonymized_bound(
                    self.key@,
                    self.pad as int,
                    ip as int,
                    width as int,
                    i + 1,
                );
                if i + 1 < 128 {
                    lemma_pow2_strictly_increases((i + 1) as nat, 128);
                    lemma_pow2_unfold((127 - i) as nat);
                }
                if i + 1 < width {
                    lemma_pow2_unfold((width - 1 - i) as nat);
                }
            }
            let input = self.make_input(result, half, Ghost(i as int));
            let block = encrypt_block(self.key.as_slice(), input.as_slice());
            let bit: u8 = (ip / unit % 2) as u8;
            let flipped: u8 = anonymized_bit(block.as_slice(), bit);
            result = result * 2 + flipped as u128;
            unit = unit / 2;
            half = half / 2;
            i = i + 1;
        }
        result
    }
}

} // verus!
