//! Learning the prefix from the AAAA records of a reference domain.

use vstd::prelude::*;

use crate::addr::{IpAddr, Ipv6Addr};
use crate::error::Error;
use crate::text::concat2;
use crate::util::{is_global_unicast, mask_to_64};

verus! {

/// Whether an answer is a global unicast IPv6 address.
pub open spec fn is_global_v6(a: IpAddr) -> bool {
    a matches IpAddr::V6(v6) && crate::util::global_unicast(v6)
}

/// The /64 prefix of the first global unicast address among `answers`.
pub open spec fn first_global_prefix(answers: Seq<IpAddr>) -> Option<Ipv6Addr>
    decreases answers.len(),
{
    if answers.len() == 0 {
        None
    } else if is_global_v6(answers[0]) {
        Some(crate::util::prefix_of(answers[0]->V6_0))
    } else {
        first_global_prefix(answers.drop_first())
    }
}

/// The prefix that a lookup of `domain` shows. A failed lookup comes with its cause.
pub fn resolve_prefix(domain: &str, answers: Result<Vec<IpAddr>, String>) -> (prefix: Result<
    Ipv6Addr,
    Error,
>)
    ensures
        match (answers, prefix) {
            (Err(cause), Err(e)) => e matches Error::Prefix(t) && t@ == "DNS resolution failed: "@
                + cause@,
            (Err(_), Ok(_)) => false,
            (Ok(found), Ok(p)) => first_global_prefix(found@) == Some(p)
                && crate::util::prefix_only(p) && crate::util::global_unicast(p),
            (Ok(found), Err(e)) => first_global_prefix(found@) is None && (e matches Error::Prefix(
                t,
            ) && t@ == "no global unicast AAAA record found for "@ + domain@),
        },
{
    let found = match answers {
        Ok(found) => found,
        Err(cause) => {
            return Err(Error::Prefix(concat2("DNS resolution failed: ", cause.as_str())));
        },
    };
    let mut i: usize = 0;
    assert(found@.skip(0) =~= found@);
    while i < found.len()
        invariant
            i <= found.len(),
            answers == Result::<Vec<IpAddr>, String>::Ok(found),
            first_global_prefix(found@) == first_global_prefix(found@.skip(i as int)),
        decreases found.len() - i,
    {
        let ghost rest = found@.skip(i as int);
        assert(rest[0] == found@[i as int]);
        if let IpAddr::V6(v6) = &found[i] {
            if is_global_unicast(v6) {
                return Ok(mask_to_64(v6));
            }
        }
        assert(rest.drop_first() =~= found@.skip(i + 1));
        i += 1;
    }
    Err(Error::Prefix(concat2("no global unicast AAAA record found for ", domain)))
}

/// Detects the /64 prefix by resolving a reference domain, and remembers what the
/// last successful poll found.
pub struct DnsResolver {
    pub reference_domain: String,
    pub interval_secs: u64,
    pub last: Option<Ipv6Addr>,
}

impl DnsResolver {
    /// A resolver that has not polled yet.
    pub fn new(reference_domain: String, interval_secs: u64) -> (resolver: DnsResolver)
        ensures
            resolver.reference_domain == reference_domain,
            resolver.interval_secs == interval_secs,
            resolver.last is None,
    {
        DnsResolver { reference_domain, interval_secs, last: None }
    }

    /// The prefix that a lookup of the reference domain shows.
    pub fn detect(&self, answers: Result<Vec<IpAddr>, String>) -> (prefix: Result<Ipv6Addr, Error>)
        ensures
            match (answers, prefix) {
                (Err(cause), Err(e)) => e matches Error::Prefix(t) && t@
                    == "DNS resolution failed: "@ + cause@,
                (Err(_), Ok(_)) => false,
                (Ok(found), Ok(p)) => first_global_prefix(found@) == Some(p)
                    && crate::util::prefix_only(p) && crate::util::global_unicast(p),
                (Ok(found), Err(e)) => first_global_prefix(found@) is None && (
                e matches Error::Prefix(t) && t@ == "no global unicast AAAA record found for "@
                    + self.reference_domain@),
            },
    {
        resolve_prefix(self.reference_domain.as_str(), answers)
    }

    /// Takes the outcome of one background poll. A prefix that was found is remembered; a
    /// failed poll changes nothing. Every poll is a tick and worth telling, whatever it
    /// found: records that could not be set and hosts that are new wait for it.
    pub fn poll(&mut self, outcome: &Result<Ipv6Addr, Error>) -> (tell: bool)
        ensures
            tell,
            final(self).last == (match *outcome {
                Ok(p) => Some(p),
                Err(_) => old(self).last,
            }),
            final(self).reference_domain == old(self).reference_domain,
            final(self).interval_secs == old(self).interval_secs,
    {
        if let Ok(prefix) = outcome {
            self.last = Some(*prefix);
        }
        true
    }
}

/// The prefix comes from the first answer, by position, that is an address in 2000::/3: its
/// first four segments, then zeros. It is missing only if no answer is such an address.
pub proof fn law_first_global_answer(answers: Seq<IpAddr>)
    ensures
        match first_global_prefix(answers) {
            Some(p) => exists|i: int|
                #![trigger answers[i]]
                0 <= i < answers.len() && (answers[i] matches IpAddr::V6(a) && 0x2000
                    <= a.segments[0] <= 0x3fff && (forall|k: int|
                    0 <= k < 4 ==> #[trigger] p.segments@[k] == a.segments@[k])) && (forall|k: int|
                    4 <= k < 8 ==> #[trigger] p.segments@[k] == 0) && (forall|j: int|
                    #![trigger answers[j]]
                    0 <= j < i ==> !(answers[j] matches IpAddr::V6(b) && 0x2000 <= b.segments[0]
                        <= 0x3fff)),
            None => forall|i: int|
                #![trigger answers[i]]
                0 <= i < answers.len() ==> !(answers[i] matches IpAddr::V6(a) && 0x2000
                    <= a.segments[0] <= 0x3fff),
        },
    decreases answers.len(),
{
    if answers.len() > 0 && !is_global_v6(answers[0]) {
        let rest = answers.drop_first();
        law_first_global_answer(rest);
        match first_global_prefix(rest) {
            Some(p) => {
                let i = choose|i: int|
                    #![trigger rest[i]]
                    0 <= i < rest.len() && (rest[i] matches IpAddr::V6(a) && 0x2000
                        <= a.segments[0] <= 0x3fff && (forall|k: int|
                        0 <= k < 4 ==> #[trigger] p.segments@[k] == a.segments@[k])) && (forall|
                        k: int,
                    |
                        4 <= k < 8 ==> #[trigger] p.segments@[k] == 0) && (forall|j: int|
                        #![trigger rest[j]]
                        0 <= j < i ==> !(rest[j] matches IpAddr::V6(b) && 0x2000 <= b.segments[0]
                            <= 0x3fff));
                assert(answers[i + 1] == rest[i]);
                assert forall|j: int| #![trigger answers[j]] 0 <= j < i + 1 implies !(
                answers[j] matches IpAddr::V6(b) && 0x2000 <= b.segments[0] <= 0x3fff) by {
                    if j > 0 {
                        assert(answers[j] == rest[j - 1]);
                    }
                }
            },
            None => {
                assert forall|i: int| #![trigger answers[i]] 0 <= i < answers.len() implies !(
                answers[i] matches IpAddr::V6(a) && 0x2000 <= a.segments[0] <= 0x3fff) by {
                    if i > 0 {
                        assert(answers[i] == rest[i - 1]);
                    }
                }
            },
        }
    } else if answers.len() > 0 {
        let a = answers[0]->V6_0;
        let p = crate::util::prefix_of(a);
        assert(answers[0] == IpAddr::V6(a));
        assert forall|k: int| 0 <= k < 4 implies #[trigger] p.segments@[k] == a.segments@[k] by {}
        assert forall|k: int| 4 <= k < 8 implies #[trigger] p.segments@[k] == 0 by {}
    }
}

} // verus!
