//! The two halves of an address: the /64 prefix that the provider assigns and
//! the suffix that a host keeps.

use vstd::prelude::*;

use crate::addr::Ipv6Addr;

verus! {

/// Whether the address is a bare prefix: its lower 64 bits are zero.
pub open spec fn prefix_only(a: Ipv6Addr) -> bool {
    a.segments[4] == 0 && a.segments[5] == 0 && a.segments[6] == 0 && a.segments[7] == 0
}

/// Whether the address is a bare suffix: its upper 64 bits are zero.
pub open spec fn suffix_only(a: Ipv6Addr) -> bool {
    a.segments[0] == 0 && a.segments[1] == 0 && a.segments[2] == 0 && a.segments[3] == 0
}

/// The upper 64 bits of an address.
pub open spec fn prefix_of(a: Ipv6Addr) -> Ipv6Addr {
    let s = a.segments;
    Ipv6Addr { segments: [s[0], s[1], s[2], s[3], 0, 0, 0, 0] }
}

/// The lower 64 bits of an address.
pub open spec fn suffix_of(a: Ipv6Addr) -> Ipv6Addr {
    let s = a.segments;
    Ipv6Addr { segments: [0, 0, 0, 0, s[4], s[5], s[6], s[7]] }
}

/// The upper 64 bits of one address with the lower 64 bits of another.
pub open spec fn combined(prefix: Ipv6Addr, suffix: Ipv6Addr) -> Ipv6Addr {
    let p = prefix.segments;
    let s = suffix.segments;
    Ipv6Addr { segments: [p[0], p[1], p[2], p[3], s[4], s[5], s[6], s[7]] }
}

/// Whether the address lies in 2000::/3.
pub open spec fn global_unicast(a: Ipv6Addr) -> bool {
    0x2000 <= a.segments[0] <= 0x3fff
}

/// Masks an address to its lower 64 bits.
pub fn suffix_from_addr(addr: &Ipv6Addr) -> (suffix: Ipv6Addr)
    ensures
        suffix == suffix_of(*addr),
        suffix_only(suffix),
{
    let s = addr.segments;
    Ipv6Addr { segments: [0, 0, 0, 0, s[4], s[5], s[6], s[7]] }
}

/// Masks an address to its /64 prefix.
pub fn mask_to_64(addr: &Ipv6Addr) -> (prefix: Ipv6Addr)
    ensures
        prefix == prefix_of(*addr),
        prefix_only(prefix),
        global_unicast(prefix) == global_unicast(*addr),
{
    let s = addr.segments;
    Ipv6Addr { segments: [s[0], s[1], s[2], s[3], 0, 0, 0, 0] }
}

/// Whether the address is a global unicast address (2000::/3).
pub fn is_global_unicast(addr: &Ipv6Addr) -> (global: bool)
    ensures
        global == global_unicast(*addr),
{
    0x2000 <= addr.segments[0] && addr.segments[0] <= 0x3fff
}

/// Whether the lower 64 bits are zero.
pub fn is_prefix(addr: &Ipv6Addr) -> (yes: bool)
    ensures
        yes == prefix_only(*addr),
{
    let s = addr.segments;
    s[4] == 0 && s[5] == 0 && s[6] == 0 && s[7] == 0
}

/// Whether the upper 64 bits are zero. A configured suffix for which this does
/// not hold is likely a full address.
pub fn is_suffix(addr: &Ipv6Addr) -> (yes: bool)
    ensures
        yes == suffix_only(*addr),
{
    let s = addr.segments;
    s[0] == 0 && s[1] == 0 && s[2] == 0 && s[3] == 0
}

/// Combines a /64 prefix with a suffix.
pub fn combine(prefix: &Ipv6Addr, suffix: &Ipv6Addr) -> (addr: Ipv6Addr)
    requires
        prefix_only(*prefix),
        suffix_only(*suffix),
    ensures
        addr == combined(*prefix, *suffix),
{
    let p = prefix.segments;
    let s = suffix.segments;
    Ipv6Addr { segments: [p[0], p[1], p[2], p[3], s[4], s[5], s[6], s[7]] }
}

/// A combined address has the prefix and the suffix it was made from.
pub proof fn law_combine_keeps_halves(prefix: Ipv6Addr, suffix: Ipv6Addr)
    requires
        prefix_only(prefix),
        suffix_only(suffix),
    ensures
        prefix_of(combined(prefix, suffix)) == prefix,
        suffix_of(combined(prefix, suffix)) == suffix,
{
    assert(prefix_of(combined(prefix, suffix)).segments =~= prefix.segments);
    assert(suffix_of(combined(prefix, suffix)).segments =~= suffix.segments);
}

/// Every address is the combination of its own halves.
pub proof fn law_halves_make_whole(a: Ipv6Addr)
    ensures
        prefix_only(prefix_of(a)),
        suffix_only(suffix_of(a)),
        combined(prefix_of(a), suffix_of(a)) == a,
{
    assert(combined(prefix_of(a), suffix_of(a)).segments =~= a.segments);
}

/// A new prefix changes the upper half of a host's address and nothing else.
pub proof fn law_rotation_keeps_suffix(old_prefix: Ipv6Addr, new_prefix: Ipv6Addr, suffix: Ipv6Addr)
    requires
        prefix_only(old_prefix),
        prefix_only(new_prefix),
        suffix_only(suffix),
    ensures
        suffix_of(combined(old_prefix, suffix)) == suffix_of(combined(new_prefix, suffix)),
        combined(old_prefix, suffix) == combined(new_prefix, suffix) <==> old_prefix == new_prefix,
{
    law_combine_keeps_halves(old_prefix, suffix);
    law_combine_keeps_halves(new_prefix, suffix);
}

/// Hosts with different suffixes never share an address under one prefix.
pub proof fn law_suffixes_stay_apart(prefix: Ipv6Addr, a: Ipv6Addr, b: Ipv6Addr)
    requires
        prefix_only(prefix),
        suffix_only(a),
        suffix_only(b),
        combined(prefix, a) == combined(prefix, b),
    ensures
        a == b,
{
    law_combine_keeps_halves(prefix, a);
    law_combine_keeps_halves(prefix, b);
}

/// Global unicast means that the top three bits are 001.
pub proof fn law_global_unicast_bits(a: Ipv6Addr)
    ensures
        global_unicast(a) <==> a.segments[0] & 0xe000 == 0x2000,
{
    let top = a.segments[0];
    assert((0x2000 <= top && top <= 0x3fff) <==> top & 0xe000 == 0x2000) by (bit_vector);
}

/// Whether a host's address is globally routable depends on its prefix alone.
pub proof fn law_global_depends_on_prefix(prefix: Ipv6Addr, suffix: Ipv6Addr)
    ensures
        global_unicast(combined(prefix, suffix)) == global_unicast(prefix),
{
}

/// What the two halves hold, segment by segment: the prefix has the first four segments and
/// zeros behind them, the suffix zeros and the last four, and a combination has the first
/// four of the one and the last four of the other.
pub proof fn law_halves_by_segment(a: Ipv6Addr, b: Ipv6Addr, i: int)
    requires
        0 <= i < 8,
    ensures
        prefix_of(a).segments[i] == if i < 4 {
            a.segments[i]
        } else {
            0
        },
        suffix_of(a).segments[i] == if i < 4 {
            0
        } else {
            a.segments[i]
        },
        combined(a, b).segments[i] == if i < 4 {
            a.segments[i]
        } else {
            b.segments[i]
        },
{
}

/// An address is a bare prefix if its last four segments are zero, and a bare suffix if its
/// first four are.
pub proof fn law_bare_halves(a: Ipv6Addr)
    ensures
        prefix_only(a) <==> forall|i: int| 4 <= i < 8 ==> #[trigger] a.segments@[i] == 0,
        suffix_only(a) <==> forall|i: int| 0 <= i < 4 ==> #[trigger] a.segments@[i] == 0,
{
    if forall|i: int| 4 <= i < 8 ==> #[trigger] a.segments@[i] == 0 {
        assert(a.segments@[4] == 0 && a.segments@[5] == 0 && a.segments@[6] == 0
            && a.segments@[7] == 0);
    }
    if forall|i: int| 0 <= i < 4 ==> #[trigger] a.segments@[i] == 0 {
        assert(a.segments@[0] == 0 && a.segments@[1] == 0 && a.segments@[2] == 0
            && a.segments@[3] == 0);
    }
}

} // verus!
