//! IP anonymizer: truncates a client address to a fixed-width network
//! prefix and renders it in CIDR notation.
//!
//! An IPv4 address keeps its top 28 bits, an IPv6 address its top 56 bits;
//! every bit below the prefix width is zeroed before the value is rendered,
//! so no full address ever leaves this module.

use vstd::prelude::*;

verus! {

/// A client IP address as plain bytes, in network order.
#[derive(Debug)]
pub enum IpAddress {
    V4([u8; 4]),
    V6([u8; 16]),
}

/// The IPv4 network prefix: the top 28 bits of the address, the low 4 bits
/// of the last octet zeroed.
pub open spec fn mask_v4(o: Seq<u8>) -> Seq<u8>
    recommends
        o.len() == 4,
{
    seq![o[0], o[1], o[2], o[3] & 0xf0]
}

/// The IPv6 network prefix: the top 56 bits (7 bytes) of the address, the
/// remaining 9 bytes zeroed.
pub open spec fn mask_v6(b: Seq<u8>) -> Seq<u8>
    recommends
        b.len() == 16,
{
    b.subrange(0, 7) + seq![0u8, 0u8, 0u8, 0u8, 0u8, 0u8, 0u8, 0u8, 0u8]
}

/// Decimal digits of `n`, most significant first.
pub open spec fn dec_of(n: nat) -> Seq<u8>
    decreases n,
{
    if n < 10 {
        seq![(48 + n) as u8]
    } else {
        dec_of(n / 10).push((48 + n % 10) as u8)
    }
}

/// One lowercase hexadecimal digit.
pub open spec fn hex_digit(n: nat) -> u8
    recommends
        n < 16,
{
    if n < 10 {
        (48 + n) as u8
    } else {
        (87 + n) as u8
    }
}

/// Lowercase hexadecimal digits of `n`, most significant first, without
/// leading zeros.
pub open spec fn hex_of(n: nat) -> Seq<u8>
    decreases n,
{
    if n < 16 {
        seq![hex_digit(n)]
    } else {
        hex_of(n / 16).push(hex_digit(n % 16))
    }
}

/// The 16-bit groups of an IPv6 address given as 16 bytes.
pub open spec fn v6_group(b: Seq<u8>, i: int) -> nat
    recommends
        b.len() == 16,
        0 <= i < 8,
{
    (b[2 * i] as nat) * 256 + (b[2 * i + 1] as nat)
}

/// Dotted-decimal CIDR rendering of a masked IPv4 address.
pub open spec fn cidr_v4(m: Seq<u8>) -> Seq<u8>
    recommends
        m.len() == 4,
{
    dec_of(m[0] as nat) + seq![46u8] + dec_of(m[1] as nat) + seq![46u8] + dec_of(m[2] as nat)
        + seq![46u8] + dec_of(m[3] as nat) + seq![47u8, 50u8, 56u8]
}

/// The group index after the last nonzero group among the first four groups
/// of a masked IPv6 address (its other groups are zero).
pub open spec fn v6_end_group(m: Seq<u8>, k: int) -> int
    recommends
        m.len() == 16,
        0 <= k <= 4,
    decreases k,
{
    if k <= 0 {
        0
    } else if v6_group(m, k - 1) != 0 {
        k
    } else {
        v6_end_group(m, k - 1)
    }
}

/// The nonzero head groups of a masked IPv6 address, rendered in lowercase
/// hexadecimal and joined by `:`.
pub open spec fn v6_head(m: Seq<u8>, k: int) -> Seq<u8>
    recommends
        m.len() == 16,
        0 <= k <= 4,
    decreases k,
{
    if k <= 0 {
        Seq::empty()
    } else if k == 1 {
        hex_of(v6_group(m, 0))
    } else {
        v6_head(m, k - 1) + seq![58u8] + hex_of(v6_group(m, k - 1))
    }
}

/// Canonical CIDR rendering of a masked IPv6 address: the groups up to the
/// last nonzero one, then `::` standing for the all-zero tail, then the
/// prefix width. The zero tail spans at least the last four groups, so it
/// is always the longest zero run and `::` always compresses it.
pub open spec fn cidr_v6(m: Seq<u8>) -> Seq<u8>
    recommends
        m.len() == 16,
{
    v6_head(m, v6_end_group(m, 4)) + seq![58u8, 58u8, 47u8, 53u8, 54u8]
}

/// The anonymized CIDR prefix of an address: its masked form, rendered.
pub open spec fn truncate_spec(ip: IpAddress) -> Seq<u8> {
    match ip {
        IpAddress::V4(o) => cidr_v4(mask_v4(o@)),
        IpAddress::V6(b) => cidr_v6(mask_v6(b@)),
    }
}

/// Append the decimal rendering of `n`.
pub(crate) fn push_dec_u64(out: &mut Vec<u8>, n: u64)
    ensures
        final(out)@ == old(out)@ + dec_of(n as nat),
    decreases n,
{
    if n < 10 {
        out.push(48 + n as u8);
        assert(final(out)@ =~= old(out)@ + dec_of(n as nat));
    } else {
        push_dec_u64(out, n / 10);
        out.push(48 + (n % 10) as u8);
        assert(final(out)@ =~= old(out)@ + dec_of(n as nat));
    }
}

/// Append the lowercase hexadecimal rendering of `n`, without leading
/// zeros.
fn push_hex_u16(out: &mut Vec<u8>, n: u16)
    ensures
        final(out)@ == old(out)@ + hex_of(n as nat),
    decreases n,
{
    if n < 16 {
        let d: u8 = if n < 10 {
            48 + n as u8
        } else {
            87 + n as u8
        };
        out.push(d);
        assert(final(out)@ =~= old(out)@ + hex_of(n as nat));
    } else {
        push_hex_u16(out, n / 16);
        let r: u16 = n % 16;
        let d: u8 = if r < 10 {
            48 + r as u8
        } else {
            87 + r as u8
        };
        out.push(d);
        assert(final(out)@ =~= old(out)@ + hex_of(n as nat));
    }
}

/// Anonymize an address: mask it to the fixed prefix width of its family
/// and render the result in CIDR notation. Total: rendering a masked
/// address cannot fail.
pub fn truncate(ip: &IpAddress) -> (r: Vec<u8>)
    ensures
        r@ == truncate_spec(*ip),
{
    match ip {
        IpAddress::V4(o) => {
            let mut out: Vec<u8> = Vec::new();
            push_dec_u64(&mut out, o[0] as u64);
            out.push(46);
            push_dec_u64(&mut out, o[1] as u64);
            out.push(46);
            push_dec_u64(&mut out, o[2] as u64);
            out.push(46);
            push_dec_u64(&mut out, (o[3] & 0xf0) as u64);
            out.push(47);
            out.push(50);
            out.push(56);
            assert(out@ =~= cidr_v4(mask_v4(o@)));
            out
        },
        IpAddress::V6(b) => {
            let mut out: Vec<u8> = Vec::new();
            let ghost m = mask_v6(b@);
            let g0: u16 = (b[0] as u16) * 256 + (b[1] as u16);
            let g1: u16 = (b[2] as u16) * 256 + (b[3] as u16);
            let g2: u16 = (b[4] as u16) * 256 + (b[5] as u16);
            let g3: u16 = (b[6] as u16) * 256;
            assert(g0 as nat == v6_group(m, 0));
            assert(g1 as nat == v6_group(m, 1));
            assert(g2 as nat == v6_group(m, 2));
            assert(g3 as nat == v6_group(m, 3));
            assert(v6_group(m, 4) == 0 && v6_group(m, 5) == 0 && v6_group(m, 6) == 0
                && v6_group(m, 7) == 0);
            let end: usize = if g3 != 0 {
                4
            } else if g2 != 0 {
                3
            } else if g1 != 0 {
                2
            } else if g0 != 0 {
                1
            } else {
                0
            };
            proof {
                reveal_with_fuel(v6_end_group, 5);
                reveal_with_fuel(v6_head, 5);
            }
            assert(end as int == v6_end_group(m, 4));
            if end >= 1 {
                push_hex_u16(&mut out, g0);
            }
            if end >= 2 {
                out.push(58);
                push_hex_u16(&mut out, g1);
            }
            if end >= 3 {
                out.push(58);
                push_hex_u16(&mut out, g2);
            }
            if end >= 4 {
                out.push(58);
                push_hex_u16(&mut out, g3);
            }
            assert(out@ =~= v6_head(m, end as int));
            out.push(58);
            out.push(58);
            out.push(47);
            out.push(53);
            out.push(54);
            assert(out@ =~= cidr_v6(m));
            out
        },
    }
}

/// Exactly the top 28 bits of an IPv4 address survive anonymization: the
/// first three octets are kept, the last octet keeps its high four bits and
/// its low four bits are zero.
pub proof fn lemma_v4_mask_keeps_28_bits(o: Seq<u8>)
    requires
        o.len() == 4,
    ensures
        mask_v4(o).len() == 4,
        mask_v4(o)[0] == o[0],
        mask_v4(o)[1] == o[1],
        mask_v4(o)[2] == o[2],
        mask_v4(o)[3] >> 4 == o[3] >> 4,
        mask_v4(o)[3] & 0x0f == 0,
{
    let b = o[3];
    assert((b & 0xf0) >> 4 == b >> 4) by (bit_vector);
    assert((b & 0xf0) & 0x0f == 0) by (bit_vector);
}

/// Exactly the top 56 bits of an IPv6 address survive anonymization: the
/// first seven bytes are kept and the remaining nine bytes are zero.
pub proof fn lemma_v6_mask_keeps_56_bits(b: Seq<u8>)
    requires
        b.len() == 16,
    ensures
        mask_v6(b).len() == 16,
        forall|i: int| 0 <= i < 7 ==> mask_v6(b)[i] == b[i],
        forall|i: int| 7 <= i < 16 ==> mask_v6(b)[i] == 0,
{
}

} // verus!
