//! From a base IPv4 address and a prefix length to the addresses of its
//! subnet, and the subnet mask in dotted-decimal form.
//!
//! An IPv4 address is held as a `u32` whose most significant byte is the
//! first octet.
use vstd::prelude::*;
use vstd::arithmetic::power2::pow2;
use vstd::bits::{lemma_u32_pow2_no_overflow, lemma_u32_shl_is_mul};

use crate::text::{dotted, dotted_quad};

verus! {

/// Shortest prefix length that a scan takes.
pub const MIN_PREFIX: u8 = 1;

/// Longest prefix length: a single address.
pub const MAX_PREFIX: u8 = 32;

/// Prefix lengths outside `[1, 32]` are brought to the nearest bound.
pub open spec fn clamped_prefix(prefix_len: u8) -> u32 {
    if prefix_len < MIN_PREFIX {
        MIN_PREFIX as u32
    } else if prefix_len > MAX_PREFIX {
        MAX_PREFIX as u32
    } else {
        prefix_len as u32
    }
}

/// Number of host bits left by a prefix length in `[1, 32]`.
pub open spec fn host_bits(prefix: u32) -> u32 {
    (32 - prefix) as u32
}

/// Network mask of a prefix length in `[1, 32]`: `prefix` leading one bits.
pub open spec fn netmask(prefix: u32) -> u32 {
    0xffff_ffffu32 << host_bits(prefix)
}

/// Number of addresses in a subnet with this prefix length.
pub open spec fn host_count(prefix: u32) -> nat {
    pow2(host_bits(prefix) as nat)
}

/// First address of the subnet of `base`.
pub open spec fn network(base: u32, prefix: u32) -> u32 {
    base & netmask(prefix)
}

/// The addresses a scan of `base` with `prefix_len` visits, in order: every
/// offset from zero to the subnet size, added to the network address.
pub open spec fn range_of(base: u32, prefix_len: u8) -> Seq<u32> {
    let p = clamped_prefix(prefix_len);
    Seq::new(host_count(p), |i: int| (network(base, p) + i) as u32)
}

/// Whether `addr` lies in the subnet of `base`.
pub open spec fn in_subnet(addr: u32, base: u32, prefix: u32) -> bool {
    addr & netmask(prefix) == network(base, prefix)
}

pub open spec fn ipv4_value(a: u8, b: u8, c: u8, d: u8) -> u32 {
    (a as int * 0x100_0000 + b as int * 0x1_0000 + c as int * 0x100 + d as int) as u32
}

proof fn lemma_octets_join(a: u32, b: u32, c: u32, d: u32)
    by (bit_vector)
    requires
        a < 0x100,
        b < 0x100,
        c < 0x100,
        d < 0x100,
    ensures
        a * 0x100_0000 + b * 0x1_0000 + c * 0x100 + d <= 0xffff_ffff,
        ((a * 0x100_0000 + b * 0x1_0000 + c * 0x100 + d) as u32) / 0x100_0000 == a,
        ((((a * 0x100_0000 + b * 0x1_0000 + c * 0x100 + d) as u32) / 0x1_0000) % 0x100) == b,
        ((((a * 0x100_0000 + b * 0x1_0000 + c * 0x100 + d) as u32) / 0x100) % 0x100) == c,
        ((a * 0x100_0000 + b * 0x1_0000 + c * 0x100 + d) as u32) % 0x100 == d,
{
}

proof fn lemma_octets_split(x: u32)
    by (bit_vector)
    ensures
        x == (x / 0x100_0000) * 0x100_0000 + ((x / 0x1_0000) % 0x100) * 0x1_0000 + ((x / 0x100)
            % 0x100) * 0x100 + x % 0x100,
{
}

/// The address with octets `a.b.c.d`.
pub fn ipv4(a: u8, b: u8, c: u8, d: u8) -> (r: u32)
    ensures
        r == ipv4_value(a, b, c, d),
        r / 0x100_0000 == a,
        (r / 0x1_0000) % 0x100 == b,
        (r / 0x100) % 0x100 == c,
        r % 0x100 == d,
{
    proof {
        lemma_octets_join(a as u32, b as u32, c as u32, d as u32);
    }
    (a as u32) * 0x100_0000 + (b as u32) * 0x1_0000 + (c as u32) * 0x100 + (d as u32)
}

/// The octets of an address, first octet first.
pub fn octets(addr: u32) -> (r: (u8, u8, u8, u8))
    ensures
        r.0 == addr / 0x100_0000,
        r.1 == (addr / 0x1_0000) % 0x100,
        r.2 == (addr / 0x100) % 0x100,
        r.3 == addr % 0x100,
        ipv4_value(r.0, r.1, r.2, r.3) == addr,
{
    proof {
        lemma_octets_split(addr);
    }
    ((addr / 0x100_0000) as u8, ((addr / 0x1_0000) % 0x100) as u8, ((addr / 0x100) % 0x100) as u8, (
    addr % 0x100) as u8)
}

/// Writes an address in dotted-decimal form.
pub fn address_to_string(addr: u32) -> (r: String)
    ensures
        r@ == dotted_quad(
            (addr / 0x100_0000) as nat,
            ((addr / 0x1_0000) % 0x100) as nat,
            ((addr / 0x100) % 0x100) as nat,
            (addr % 0x100) as nat,
        ),
{
    let (a, b, c, d) = octets(addr);
    dotted(a, b, c, d)
}

/// Clamps a prefix length into `[1, 32]`.
pub fn clamp_prefix(prefix_len: u8) -> (r: u32)
    ensures
        r == clamped_prefix(prefix_len),
        1 <= r <= 32,
{
    if prefix_len < MIN_PREFIX {
        MIN_PREFIX as u32
    } else if prefix_len > MAX_PREFIX {
        MAX_PREFIX as u32
    } else {
        prefix_len as u32
    }
}

/// The offsets below the subnet size stay inside the subnet and do not wrap.
proof fn lemma_offset_in_subnet(base: u32, shift: u32, i: u32)
    by (bit_vector)
    requires
        shift < 32,
        i < (1u32 << shift),
    ensures
        (base & (0xffff_ffffu32 << shift)) + i <= 0xffff_ffff,
        (((base & (0xffff_ffffu32 << shift)) + i) as u32) & (0xffff_ffffu32 << shift) == base & (
        0xffff_ffffu32 << shift),
{
}

/// The subnet size as a shift of one.
proof fn lemma_host_count(prefix: u32)
    requires
        1 <= prefix <= 32,
    ensures
        (1u32 << host_bits(prefix)) == host_count(prefix),
        host_count(prefix) <= 0x8000_0000,
{
    let s = host_bits(prefix);
    lemma_u32_pow2_no_overflow(s as nat);
    lemma_u32_shl_is_mul(1, s);
    assert((1u32 << s) <= 0x8000_0000) by (bit_vector)
        requires
            s < 32,
    ;
}

/// Every address of the subnet of `base` at prefix length `prefix_len`
/// (clamped to `[1, 32]`), from the network address upwards.
pub fn compute_range(base: u32, prefix_len: u8) -> (r: Vec<u32>)
    ensures
        r@ == range_of(base, prefix_len),
        r@.len() == host_count(clamped_prefix(prefix_len)),
        forall|i: int|
            0 <= i < r@.len() ==> #[trigger] in_subnet(r@[i], base, clamped_prefix(prefix_len)),
{
    let p = clamp_prefix(prefix_len);
    let shift: u32 = 32 - p;
    let mask: u32 = 0xffff_ffffu32 << shift;
    let net: u32 = base & mask;
    let size: u32 = 1u32 << shift;
    proof {
        lemma_host_count(p);
    }
    let mut out: Vec<u32> = Vec::new();
    let mut i: u32 = 0;
    while i < size
        invariant
            p == clamped_prefix(prefix_len),
            1 <= p <= 32,
            shift == host_bits(p),
            mask == netmask(p),
            net == network(base, p),
            size == (1u32 << shift),
            size == host_count(p),
            i <= size,
            out@.len() == i,
            forall|j: int| 0 <= j < i ==> out@[j] == (net + j) as u32,
            forall|j: int| 0 <= j < i ==> #[trigger] in_subnet(out@[j], base, p),
        decreases size - i,
    {
        proof {
            lemma_offset_in_subnet(base, shift, i);
        }
        out.push(net + i);
        i = i + 1;
    }
    proof {
        assert(out@ =~= range_of(base, prefix_len));
    }
    out
}

/// One octet of a subnet mask: the octet that ends at bit `v` (8, 16, 24
/// or 32) is `0xFF` shifted left by the number of host bits it holds,
/// which is zero once all eight are host bits.
pub open spec fn mask_octet(prefix: u32, v: u32) -> u8 {
    if prefix >= v {
        0xff
    } else if v - prefix > 7 {
        0
    } else {
        0xffu8 << ((v - prefix) as u8)
    }
}

/// The mask of prefix length `prefix_len` (clamped to `[1, 32]`) in
/// dotted-decimal form.
pub open spec fn mask_text(prefix_len: u8) -> Seq<char> {
    let p = clamped_prefix(prefix_len);
    dotted_quad(
        mask_octet(p, 8) as nat,
        mask_octet(p, 16) as nat,
        mask_octet(p, 24) as nat,
        mask_octet(p, 32) as nat,
    )
}

fn octet_of_mask(prefix: u32, v: u32) -> (r: u8)
    requires
        1 <= prefix <= 32,
        v == 8 || v == 16 || v == 24 || v == 32,
    ensures
        r == mask_octet(prefix, v),
{
    if prefix >= v {
        0xff
    } else if v - prefix > 7 {
        0
    } else {
        0xffu8 << ((v - prefix) as u8)
    }
}

/// The subnet mask of `prefix_len` in dotted-decimal form, with the
/// prefix length clamped to `[1, 32]`.
pub fn subnet_mask_dotted(prefix_len: u8) -> (r: String)
    ensures
        r@ == mask_text(prefix_len),
{
    let p = clamp_prefix(prefix_len);
    dotted(octet_of_mask(p, 8), octet_of_mask(p, 16), octet_of_mask(p, 24), octet_of_mask(p, 32))
}

} // verus!
