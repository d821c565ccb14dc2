//! Learning the prefix from IPv6 Router Advertisements.

use vstd::prelude::*;
use vstd::slice::slice_subrange;

use crate::addr::Ipv6Addr;
use crate::error::Error;
use crate::util::{is_global_unicast, mask_to_64};

verus! {

/// ICMPv6 type of a Router Advertisement.
pub const ROUTER_ADVERTISEMENT: u8 = 134;

/// Option type of a Prefix Information Option.
pub const PREFIX_INFORMATION: u8 = 3;

/// The ICMPv6 header and the fixed part of a Router Advertisement; options follow.
pub const OPTIONS_START: usize = 16;

/// The size of an interface name buffer, with the terminating zero.
pub const IFNAMSIZ: usize = 16;

/// The options of an advertisement, each with its two header bytes. Its second
/// byte gives an option's length in units of eight bytes; reading stops at a
/// length of zero and at an option that does not fit in what is left.
pub open spec fn options(data: Seq<u8>) -> Seq<Seq<u8>>
    decreases data.len(),
{
    let size = 8 * data[1] as int;
    if data.len() < 2 || size == 0 || size > data.len() {
        Seq::empty()
    } else {
        seq![data.take(size)] + options(data.skip(size))
    }
}

/// The big-endian 16-bit number at `at`.
pub open spec fn be16(data: Seq<u8>, at: int) -> u16 {
    (data[at] * 256 + data[at + 1]) as u16
}

/// The address in the sixteen bytes at `at`.
pub open spec fn address_at(data: Seq<u8>, at: int) -> Ipv6Addr {
    Ipv6Addr {
        segments: [
            be16(data, at),
            be16(data, at + 2),
            be16(data, at + 4),
            be16(data, at + 6),
            be16(data, at + 8),
            be16(data, at + 10),
            be16(data, at + 12),
            be16(data, at + 14),
        ],
    }
}

/// Whether an option announces a usable prefix: a Prefix Information Option of full
/// size with the autonomous flag set, whose prefix is global unicast.
pub open spec fn announces_prefix(option: Seq<u8>) -> bool {
    &&& option.len() >= 32
    &&& option[0] == PREFIX_INFORMATION
    &&& option[3] & 0x40 != 0
    &&& crate::util::global_unicast(address_at(option, 16))
}

/// The /64 prefix of the first option that announces one.
pub open spec fn first_announced(options: Seq<Seq<u8>>) -> Option<Ipv6Addr>
    decreases options.len(),
{
    if options.len() == 0 {
        None
    } else if announces_prefix(options[0]) {
        Some(crate::util::prefix_of(address_at(options[0], 16)))
    } else {
        first_announced(options.drop_first())
    }
}

/// The prefix that a packet advertises.
pub open spec fn advertised(data: Seq<u8>) -> Option<Ipv6Addr> {
    if data.len() < OPTIONS_START || data[0] != ROUTER_ADVERTISEMENT {
        None
    } else {
        first_announced(options(data.skip(OPTIONS_START as int)))
    }
}

/// Reads the big-endian 16-bit number at `at`.
fn read_be16(data: &[u8], at: usize) -> (v: u16)
    requires
        at + 1 < data.len(),
    ensures
        v == be16(data@, at as int),
{
    data[at] as u16 * 256 + data[at + 1] as u16
}

/// Reads the address in the sixteen bytes at `at`.
fn read_address(data: &[u8], at: usize) -> (addr: Ipv6Addr)
    requires
        at + 16 <= data.len(),
    ensures
        addr == address_at(data@, at as int),
{
    Ipv6Addr {
        segments: [
            read_be16(data, at),
            read_be16(data, at + 2),
            read_be16(data, at + 4),
            read_be16(data, at + 6),
            read_be16(data, at + 8),
            read_be16(data, at + 10),
            read_be16(data, at + 12),
            read_be16(data, at + 14),
        ],
    }
}

/// Parses a Router Advertisement and extracts the first valid prefix.
pub fn parse_ra_packet(data: &[u8]) -> (prefix: Option<Ipv6Addr>)
    ensures
        prefix == advertised(data@),
        prefix matches Some(p) ==> crate::util::prefix_only(p) && crate::util::global_unicast(p),
{
    if data.len() < OPTIONS_START || data[0] != ROUTER_ADVERTISEMENT {
        return None;
    }
    let mut offset: usize = OPTIONS_START;
    while data.len() - offset >= 2
        invariant
            OPTIONS_START <= offset <= data@.len(),
            data@[0] == ROUTER_ADVERTISEMENT,
            advertised(data@) == first_announced(options(data@.skip(offset as int))),
        ensures
            options(data@.skip(offset as int)).len() == 0,
            advertised(data@) is None,
        decreases data.len() - offset,
    {
        let ghost rest = data@.skip(offset as int);
        let size: usize = 8 * data[offset + 1] as usize;
        assert(rest[1] == data@[offset + 1]);
        if size == 0 || size > data.len() - offset {
            break;
        }
        let option = slice_subrange(data, offset, offset + size);
        assert(option@ =~= rest.take(size as int));
        assert(options(rest)[0] == option@);
        assert(options(rest).drop_first() =~= options(rest.skip(size as int)));
        if option[0] == PREFIX_INFORMATION && option.len() >= 32 && option[3] & 0x40 != 0 {
            let announced = read_address(option, 16);
            if is_global_unicast(&announced) {
                return Some(mask_to_64(&announced));
            }
        }
        assert(rest.skip(size as int) =~= data@.skip(offset + size));
        offset = offset + size;
    }
    None
}

/// Whether a filter lets an ICMPv6 type through: its bit is clear.
pub open spec fn passes(filter: Seq<u32>, kind: int) -> bool {
    filter[kind / 32] & (1u32 << ((kind % 32) as u32)) == 0
}

/// The ICMPv6 filter for the raw socket: it lets Router Advertisements through
/// and nothing else.
pub fn socket_filter() -> (filter: [u32; 8])
    ensures
        forall|t: int| 0 <= t < 256 ==> (passes(filter@, t) <==> t == ROUTER_ADVERTISEMENT),
{
    let mut filter: [u32; 8] = [0xffff_ffff; 8];
    filter[4] = filter[4] & !(1u32 << 6u32);
    assert forall|t: int| 0 <= t < 256 implies (passes(filter@, t) <==> t
        == ROUTER_ADVERTISEMENT) by {
        let bit = (t % 32) as u32;
        assert(bit < 32 ==> 0xffff_ffffu32 & (1u32 << bit) != 0) by (bit_vector);
        assert(bit < 32 ==> ((0xffff_ffffu32 & !(1u32 << 6u32)) & (1u32 << bit) == 0 <==> bit
            == 6)) by (bit_vector);
    }
    filter
}

/// An interface name as the socket option wants it: the bytes of the name, with
/// zeros behind them, and how many bytes of it count.
pub fn device_name(interface: &str) -> (name: Result<([u8; 16], usize), Error>)
    ensures
        match name {
            Ok((buffer, len)) => {
                let bytes = vstd::utf8::encode_utf8(interface@);
                &&& len == bytes.len() && len < IFNAMSIZ
                &&& buffer@ == bytes + Seq::new((IFNAMSIZ - len) as nat, |i: int| 0u8)
            },
            Err(e) => vstd::utf8::encode_utf8(interface@).len() >= IFNAMSIZ
                && (e matches Error::Other(t) && t@ == "interface name too long"@),
        },
{
    let bytes = interface.as_bytes();
    if bytes.len() >= IFNAMSIZ {
        return Err(Error::Other("interface name too long".to_string()));
    }
    let mut buffer: [u8; 16] = [0; 16];
    let mut i: usize = 0;
    while i < bytes.len()
        invariant
            i <= bytes@.len() < IFNAMSIZ,
            buffer@ == bytes@.take(i as int) + Seq::new((IFNAMSIZ - i) as nat, |j: int| 0u8),
        decreases bytes.len() - i,
    {
        buffer[i] = bytes[i];
        i += 1;
        assert(buffer@ =~= bytes@.take(i as int) + Seq::new((IFNAMSIZ - i) as nat, |j: int| 0u8));
    }
    assert(bytes@.take(i as int) =~= bytes@);
    Ok((buffer, bytes.len()))
}

/// Listens for Router Advertisements on an interface and keeps the last prefix seen.
pub struct RaListener {
    pub interface: String,
    pub last_prefix: Option<Ipv6Addr>,
}

impl RaListener {
    /// What a listener only ever holds: a bare global unicast prefix, once there is one.
    pub open spec fn wf(&self) -> bool {
        self.last_prefix matches Some(p) ==> crate::util::prefix_only(p)
            && crate::util::global_unicast(p)
    }

    /// A listener that has seen nothing yet.
    pub fn new(interface: String) -> (listener: RaListener)
        ensures
            listener.interface == interface,
            listener.last_prefix is None,
            listener.wf(),
    {
        RaListener { interface, last_prefix: None }
    }

    /// Takes a received packet. A prefix in it becomes the last one, and is worth
    /// telling; other packets change nothing.
    pub fn receive(&mut self, data: &[u8]) -> (tell: bool)
        ensures
            tell == (advertised(data@) is Some),
            final(self).last_prefix == if tell {
                advertised(data@)
            } else {
                old(self).last_prefix
            },
            final(self).interface == old(self).interface,
            old(self).wf() ==> final(self).wf(),
    {
        match parse_ra_packet(data) {
            Some(prefix) => {
                self.last_prefix = Some(prefix);
                true
            },
            None => false,
        }
    }

    /// The current prefix, or an error as long as no advertisement has come.
    pub fn detect(&self) -> (prefix: Result<Ipv6Addr, Error>)
        ensures
            match prefix {
                Ok(p) => self.last_prefix == Some(p),
                Err(e) => self.last_prefix is None && (e matches Error::Prefix(t) && t@
                    == "RA listener: no prefix received yet; waiting for Router Advertisement"@),
            },
            self.wf() ==> (prefix matches Ok(p) ==> crate::util::prefix_only(p)
                && crate::util::global_unicast(p)),
    {
        match self.last_prefix {
            Some(prefix) => Ok(prefix),
            None => Err(
                Error::Prefix(
                    "RA listener: no prefix received yet; waiting for Router Advertisement"
                        .to_string(),
                ),
            ),
        }
    }
}

/// An address whose sixteen octets, most significant first, stand in the data is read as
/// that address.
pub proof fn law_octets_read_back(data: Seq<u8>, at: int, a: Ipv6Addr)
    requires
        forall|i: int|
            0 <= i < 8 ==> {
                &&& data[at + 2 * i] == (#[trigger] a.segments@[i]) as int / 256
                &&& data[at + 2 * i + 1] == a.segments@[i] as int % 256
            },
    ensures
        address_at(data, at) == a,
{
    let found = address_at(data, at);
    let s = a.segments@;
    assert(data[at + 2 * 0] == s[0] as int / 256 && data[at + 2 * 1] == s[1] as int / 256);
    assert(data[at + 2 * 2] == s[2] as int / 256 && data[at + 2 * 3] == s[3] as int / 256);
    assert(data[at + 2 * 4] == s[4] as int / 256 && data[at + 2 * 5] == s[5] as int / 256);
    assert(data[at + 2 * 6] == s[6] as int / 256 && data[at + 2 * 7] == s[7] as int / 256);
    assert(found.segments@ =~= a.segments@);
    crate::addr::lemma_same_segments(found, a);
}

/// Whether an option is as long as its second byte says, in units of eight bytes, and is no
/// full-size Prefix Information Option with the autonomous flag and a prefix in 2000::/3.
spec fn is_passed_over(option: Seq<u8>) -> bool {
    &&& option.len() >= 2
    &&& option.len() == 8 * option[1]
    &&& option[0] != 3 || option.len() < 32 || option[3] & 0x40 == 0 || !(0x20 <= option[16]
        <= 0x3f)
}

/// The options of a list of well-formed ones, with something behind them.
proof fn lemma_first_announced(skipped: Seq<Seq<u8>>, rest: Seq<u8>)
    requires
        forall|i: int| 0 <= i < skipped.len() ==> is_passed_over(#[trigger] skipped[i]),
    ensures
        first_announced(options(skipped.flatten() + rest)) == first_announced(options(rest)),
    decreases skipped.len(),
{
    if skipped.len() == 0 {
        assert(skipped.flatten() + rest =~= rest);
    } else {
        let option = skipped.first();
        let later = skipped.drop_first();
        assert(is_passed_over(skipped[0]));
        assert forall|i: int| 0 <= i < later.len() implies is_passed_over(#[trigger] later[i]) by {
            assert(later[i] == skipped[i + 1]);
        }
        lemma_first_announced(later, rest);
        let data = skipped.flatten() + rest;
        let size = option.len() as int;
        assert(skipped.flatten() == option + later.flatten());
        assert(data =~= option + (later.flatten() + rest));
        assert(data[1] == option[1]);
        assert(data.take(size) =~= option);
        assert(data.skip(size) =~= later.flatten() + rest);
        assert(options(data)[0] == option);
        assert(options(data).drop_first() =~= options(later.flatten() + rest));
        assert(!announces_prefix(option));
    }
}

/// A Router Advertisement advertises the prefix of the first option that announces one.
///
/// `header` is the fixed part of the packet, of sixteen bytes, with the type in the first.
/// The options in `skipped` announce nothing: each is of another type than 3, too short, not
/// autonomous, or for a prefix outside 2000::/3. `option` is for the address `a`, in network
/// byte order. What follows it does not matter. The packet advertises the first four segments
/// of `a`.
pub proof fn law_announced_prefix_is_advertised(
    header: Seq<u8>,
    skipped: Seq<Seq<u8>>,
    option: Seq<u8>,
    rest: Seq<u8>,
    a: Ipv6Addr,
)
    requires
        header.len() == 16,
        header[0] == 134,
        forall|i: int|
            #![trigger skipped[i]]
            0 <= i < skipped.len() ==> {
                let o = skipped[i];
                &&& o.len() >= 2
                &&& o.len() == 8 * o[1]
                &&& o[0] != 3 || o.len() < 32 || o[3] & 0x40 == 0 || !(0x20 <= o[16] <= 0x3f)
            },
        option.len() >= 32,
        option.len() == 8 * option[1],
        option[0] == 3,
        option[3] & 0x40 != 0,
        0x2000 <= a.segments@[0] <= 0x3fff,
        forall|i: int|
            0 <= i < 8 ==> {
                &&& option[16 + 2 * i] == (#[trigger] a.segments@[i]) as int / 256
                &&& option[16 + 2 * i + 1] == a.segments@[i] as int % 256
            },
    ensures
        advertised(header + skipped.flatten() + option + rest) matches Some(p) && {
            &&& forall|i: int| 0 <= i < 4 ==> #[trigger] p.segments@[i] == a.segments@[i]
            &&& forall|i: int| 4 <= i < 8 ==> #[trigger] p.segments@[i] == 0
        },
{
    assert forall|i: int| 0 <= i < skipped.len() implies is_passed_over(#[trigger] skipped[i]) by {}
    let packet = header + skipped.flatten() + option + rest;
    let tail = option + rest;
    let size = option.len() as int;
    lemma_first_announced(skipped, tail);
    assert(packet.skip(16) =~= skipped.flatten() + tail);
    assert(packet[0] == header[0]);
    law_octets_read_back(option, 16, a);
    assert(tail[1] == option[1]);
    assert(tail.take(size) =~= option);
    assert(options(tail)[0] == option);
    assert(announces_prefix(option));
    let p = crate::util::prefix_of(a);
    assert(advertised(packet) == Some(p));
    assert forall|i: int| 0 <= i < 4 implies #[trigger] p.segments@[i] == a.segments@[i] by {}
    assert forall|i: int| 4 <= i < 8 implies #[trigger] p.segments@[i] == 0 by {}
}

/// A packet advertises nothing if it is too short, of another type, or if none of its
/// options announces a prefix. The options end with the packet, or at what is no option: a
/// single byte, a length of zero, or a length beyond the end of the packet.
pub proof fn law_nothing_announced_nothing_advertised(
    header: Seq<u8>,
    skipped: Seq<Seq<u8>>,
    rest: Seq<u8>,
)
    requires
        header.len() == 16,
        forall|i: int|
            #![trigger skipped[i]]
            0 <= i < skipped.len() ==> {
                let o = skipped[i];
                &&& o.len() >= 2
                &&& o.len() == 8 * o[1]
                &&& o[0] != 3 || o.len() < 32 || o[3] & 0x40 == 0 || !(0x20 <= o[16] <= 0x3f)
            },
        rest.len() < 2 || rest[1] == 0 || 8 * rest[1] > rest.len(),
    ensures
        advertised(header + skipped.flatten() + rest) is None,
{
    assert forall|i: int| 0 <= i < skipped.len() implies is_passed_over(#[trigger] skipped[i]) by {}
    let packet = header + skipped.flatten() + rest;
    lemma_first_announced(skipped, rest);
    assert(packet.skip(16) =~= skipped.flatten() + rest);
    assert(options(rest).len() == 0);
}

/// What is shorter than sixteen bytes, or does not start with the type 134, is no Router
/// Advertisement.
pub proof fn law_other_packets_advertise_nothing(packet: Seq<u8>)
    requires
        packet.len() < 16 || packet[0] != 134,
    ensures
        advertised(packet) is None,
{
}

} // verus!
