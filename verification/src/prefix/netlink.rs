//! Learning the prefix from the addresses of a network interface.

use vstd::prelude::*;

use crate::addr::{IpAddr, Ipv6Addr};
use crate::error::Error;
use crate::text::{concat2, concat3};
use crate::util::{is_global_unicast, mask_to_64};

verus! {

/// The remaining lifetimes of an address in seconds.
#[derive(Clone, Copy, Debug)]
pub struct CacheInfo {
    pub valid: u32,
    pub preferred: u32,
}

/// What the kernel says of one address of an interface.
#[derive(Clone, Copy, Debug)]
pub struct AddressInfo {
    pub ipv6: bool,
    pub address: Option<IpAddr>,
    pub secondary: bool,
    pub permanent: bool,
    pub cache: Option<CacheInfo>,
}

impl AddressInfo {
    /// Whether the address can show the prefix: global unicast IPv6, and not one of
    /// the temporary addresses that privacy extensions add.
    pub open spec fn is_candidate(self) -> bool {
        &&& self.ipv6
        &&& self.address matches Some(a) && crate::prefix::dns::is_global_v6(a)
        &&& !self.secondary || self.permanent
    }

    /// The IPv6 address itself.
    pub open spec fn v6(self) -> Ipv6Addr {
        self.address.unwrap()->V6_0
    }

    /// The valid lifetime; without information it never ends.
    pub open spec fn valid(self) -> u32 {
        match self.cache {
            Some(c) => c.valid,
            None => u32::MAX,
        }
    }

    /// The preferred lifetime; without information it never ends.
    pub open spec fn preferred(self) -> u32 {
        match self.cache {
            Some(c) => c.preferred,
            None => u32::MAX,
        }
    }

    /// Whether this address lives longer than another: by valid lifetime first, then
    /// by preferred lifetime.
    pub open spec fn outlives(self, other: AddressInfo) -> bool {
        self.valid() > other.valid() || (self.valid() == other.valid() && self.preferred()
            > other.preferred())
    }
}

/// Whether the address at `i` is the one to take the prefix from: a candidate that
/// no candidate outlives, and the first of those.
pub open spec fn is_best(addresses: Seq<AddressInfo>, i: int) -> bool {
    &&& 0 <= i < addresses.len()
    &&& addresses[i].is_candidate()
    &&& forall|j: int|
        0 <= j < addresses.len() && (#[trigger] addresses[j]).is_candidate() ==> {
            &&& !addresses[j].outlives(addresses[i])
            &&& j < i ==> addresses[i].outlives(addresses[j])
        }
}

/// Whether any address is a candidate.
pub open spec fn has_candidate(addresses: Seq<AddressInfo>) -> bool {
    exists|i: int| 0 <= i < addresses.len() && (#[trigger] addresses[i]).is_candidate()
}

/// Tells whether an address is a candidate, with its lifetimes.
fn candidate(info: &AddressInfo) -> (found: Option<(Ipv6Addr, u32, u32)>)
    ensures
        match found {
            Some((a, valid, preferred)) => info.is_candidate() && a == info.v6() && valid
                == info.valid() && preferred == info.preferred(),
            None => !info.is_candidate(),
        },
{
    if !info.ipv6 {
        return None;
    }
    match &info.address {
        Some(IpAddr::V6(v6)) => {
            if !is_global_unicast(v6) || (info.secondary && !info.permanent) {
                return None;
            }
            match &info.cache {
                Some(c) => Some((*v6, c.valid, c.preferred)),
                None => Some((*v6, u32::MAX, u32::MAX)),
            }
        },
        _ => None,
    }
}

/// At most one address is the best.
pub proof fn law_best_is_unique(addresses: Seq<AddressInfo>, i: int, j: int)
    requires
        is_best(addresses, i),
        is_best(addresses, j),
    ensures
        i == j,
{
}

/// The prefix that the addresses of `interface` show. A failed listing comes with its
/// cause.
pub fn detect_prefix(interface: &str, addresses: Result<Vec<AddressInfo>, String>) -> (prefix:
    Result<Ipv6Addr, Error>)
    ensures
        match (addresses, prefix) {
            (Err(cause), Err(e)) => e matches Error::Prefix(t) && t@
                == "netlink: failed to list addresses: "@ + cause@,
            (Err(_), Ok(_)) => false,
            (Ok(list), Ok(p)) => {
                &&& exists|i: int| #[trigger]
                    is_best(list@, i) && p == crate::util::prefix_of(list@[i].v6())
                &&& crate::util::prefix_only(p)
                &&& crate::util::global_unicast(p)
            },
            (Ok(list), Err(e)) => !has_candidate(list@) && (e matches Error::Prefix(t) && t@
                == "no global unicast IPv6 address found on interface '"@ + interface@ + "'"@),
        },
{
    let list = match addresses {
        Ok(list) => list,
        Err(cause) => {
            return Err(
                Error::Prefix(concat2("netlink: failed to list addresses: ", cause.as_str())),
            );
        },
    };
    let mut best: Option<(Ipv6Addr, u32, u32)> = None;
    let ghost mut at: int = 0;
    let mut i: usize = 0;
    while i < list.len()
        invariant
            i <= list.len(),
            match best {
                Some((a, valid, preferred)) => {
                    &&& is_best(list@.take(i as int), at)
                    &&& a == list@[at].v6()
                    &&& valid == list@[at].valid()
                    &&& preferred == list@[at].preferred()
                },
                None => !has_candidate(list@.take(i as int)),
            },
        decreases list.len() - i,
    {
        let ghost before = list@.take(i as int);
        let ghost after = list@.take(i + 1);
        assert(forall|j: int| 0 <= j < i ==> before[j] == #[trigger] after[j]);
        assert(after[i as int] == list@[i as int]);
        if let Some((a, valid, preferred)) = candidate(&list[i]) {
            let better = match best {
                Some((_, v, p)) => valid > v || (valid == v && preferred > p),
                None => true,
            };
            if better {
                assert(is_best(after, i as int)) by {
                    assert forall|j: int|
                        0 <= j < after.len() && (#[trigger] after[j]).is_candidate() implies {
                        &&& !after[j].outlives(after[i as int])
                        &&& j < i ==> after[i as int].outlives(after[j])
                    } by {
                        if j < i {
                            assert(before[j].is_candidate());
                            assert(before[at] == list@[at]);
                        }
                    }
                }
                best = Some((a, valid, preferred));
                proof {
                    at = i as int;
                }
            } else {
                assert(before[at] == after[at]);
                assert(is_best(after, at));
            }
        } else {
            proof {
                if best is Some {
                    assert(before[at] == after[at]);
                    assert(is_best(after, at));
                } else {
                    assert forall|j: int| 0 <= j < after.len() implies !(
                    #[trigger] after[j]).is_candidate() by {
                        if j < i {
                            assert(!before[j].is_candidate());
                        }
                    }
                }
            }
        }
        i += 1;
    }
    assert(list@.take(i as int) =~= list@);
    match best {
        Some((a, _, _)) => {
            assert(is_best(list@, at));
            Ok(mask_to_64(&a))
        },
        None => Err(
            Error::Prefix(
                concat3("no global unicast IPv6 address found on interface '", interface, "'"),
            ),
        ),
    }
}

/// What the kernel reports while the daemon listens. An address came to or went from the
/// interface with the given index.
#[derive(Clone, Copy, Debug)]
pub enum NetworkEvent {
    NewAddress { index: u32, address: Option<IpAddr> },
    DelAddress { index: u32, address: Option<IpAddr> },
    Other,
}

/// Whether an event can mean a new prefix: an IPv6 address came to or went from the
/// interface that is watched.
pub fn concerns_prefix(event: &NetworkEvent, interface: u32) -> (tell: bool)
    ensures
        tell == (match *event {
            NetworkEvent::NewAddress { index, address: Some(IpAddr::V6(_)) } => index == interface,
            NetworkEvent::DelAddress { index, address: Some(IpAddr::V6(_)) } => index == interface,
            _ => false,
        }),
{
    match event {
        NetworkEvent::NewAddress { index, address: Some(IpAddr::V6(_)) } => *index == interface,
        NetworkEvent::DelAddress { index, address: Some(IpAddr::V6(_)) } => *index == interface,
        _ => false,
    }
}

/// Detects the /64 prefix from the addresses of an interface.
pub struct NetlinkWatcher {
    pub interface: String,
}

impl NetlinkWatcher {
    /// A watcher of the given interface.
    pub fn new(interface: String) -> (watcher: NetlinkWatcher)
        ensures
            watcher.interface == interface,
    {
        NetlinkWatcher { interface }
    }
}

/// Which addresses are passed over: those that are not IPv6, those outside 2000::/3, and
/// those that are both secondary and not permanent; and no others.
pub proof fn law_passed_over(info: AddressInfo)
    ensures
        !info.is_candidate() <==> !info.ipv6 || !(info.address matches Some(IpAddr::V6(a))
            && 0x2000 <= a.segments[0] <= 0x3fff) || (info.secondary && !info.permanent),
{
}

/// An interface with a global IPv6 address that is not secondary, whether or not it is
/// permanent, shows a prefix.
pub proof fn law_primary_address_shows_prefix(addresses: Seq<AddressInfo>, i: int)
    requires
        0 <= i < addresses.len(),
        addresses[i].ipv6,
        addresses[i].address matches Some(IpAddr::V6(a)) && 0x2000 <= a.segments[0] <= 0x3fff,
        !addresses[i].secondary,
    ensures
        has_candidate(addresses),
{
    assert(addresses[i].is_candidate());
}

/// Without an address that is not passed over, no prefix is shown.
pub proof fn law_no_prefix_without_address(addresses: Seq<AddressInfo>)
    requires
        has_candidate(addresses),
    ensures
        exists|i: int|
            0 <= i < addresses.len() && (#[trigger] addresses[i]).ipv6 && (
            addresses[i].address matches Some(IpAddr::V6(a)) && 0x2000 <= a.segments[0] <= 0x3fff)
                && (!addresses[i].secondary || addresses[i].permanent),
{
    let i = choose|i: int| 0 <= i < addresses.len() && (#[trigger] addresses[i]).is_candidate();
    assert(addresses[i].ipv6);
}

/// The lifetimes of an address are those the kernel gives, and endless if it gives none; its
/// IPv6 address is the one it has.
pub proof fn law_lifetimes(info: AddressInfo, a: Ipv6Addr)
    ensures
        info.cache matches Some(c) ==> info.valid() == c.valid && info.preferred() == c.preferred,
        info.cache is None ==> info.valid() == 0xffff_ffff && info.preferred() == 0xffff_ffff,
        info.address == Some(IpAddr::V6(a)) ==> info.v6() == a,
{
}

/// The best address is itself not passed over, and nothing that is not passed over beats it:
/// none has a longer valid lifetime; none with the same valid lifetime has a longer preferred
/// one; and none with the same lifetimes comes before it.
pub proof fn law_best_outlives(addresses: Seq<AddressInfo>, i: int, j: int)
    requires
        is_best(addresses, i),
        0 <= j < addresses.len(),
        addresses[j].ipv6,
        addresses[j].address matches Some(IpAddr::V6(a)) && 0x2000 <= a.segments[0] <= 0x3fff,
        !addresses[j].secondary || addresses[j].permanent,
    ensures
        0 <= i < addresses.len(),
        addresses[i].ipv6,
        addresses[i].address matches Some(IpAddr::V6(a)) && 0x2000 <= a.segments[0] <= 0x3fff,
        !addresses[i].secondary || addresses[i].permanent,
        addresses[j].valid() <= addresses[i].valid(),
        addresses[j].valid() == addresses[i].valid() ==> addresses[j].preferred()
            <= addresses[i].preferred(),
        addresses[j].valid() == addresses[i].valid() && addresses[j].preferred()
            == addresses[i].preferred() ==> i <= j,
{
    assert(addresses[j].is_candidate());
}

/// Among candidates there is a best one.
pub proof fn law_best_exists(addresses: Seq<AddressInfo>)
    requires
        has_candidate(addresses),
    ensures
        exists|i: int| is_best(addresses, i),
    decreases addresses.len(),
{
    let earlier = addresses.drop_last();
    let n = addresses.len() - 1;
    let last = addresses.last();
    assert(forall|j: int| 0 <= j < n ==> earlier[j] == #[trigger] addresses[j]);
    assert(last == addresses[n]);
    if has_candidate(earlier) {
        law_best_exists(earlier);
        let b = choose|i: int| is_best(earlier, i);
        assert(earlier[b] == addresses[b]);
        if last.is_candidate() && last.outlives(addresses[b]) {
            assert(is_best(addresses, n)) by {
                assert forall|j: int|
                    0 <= j < addresses.len() && (#[trigger] addresses[j]).is_candidate() implies {
                    &&& !addresses[j].outlives(addresses[n])
                    &&& j < n ==> addresses[n].outlives(addresses[j])
                } by {
                    if j < n {
                        assert(earlier[j].is_candidate());
                    }
                }
            }
        } else {
            assert(is_best(addresses, b)) by {
                assert forall|j: int|
                    0 <= j < addresses.len() && (#[trigger] addresses[j]).is_candidate() implies {
                    &&& !addresses[j].outlives(addresses[b])
                    &&& j < b ==> addresses[b].outlives(addresses[j])
                } by {
                    if j < n {
                        assert(earlier[j].is_candidate());
                    }
                }
            }
        }
    } else {
        assert forall|j: int| 0 <= j < n implies !(#[trigger] addresses[j]).is_candidate() by {
            assert(!earlier[j].is_candidate());
        }
        assert(is_best(addresses, n));
    }
}

} // verus!
