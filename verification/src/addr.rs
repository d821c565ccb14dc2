//! IPv6 addresses and their text form.

use vstd::prelude::*;
use vstd::slice::slice_subrange;

use crate::number::{push_number, read_digits};
use crate::text::{split_chars, to_chars};

verus! {

/// An IPv6 address as its eight 16-bit segments, most significant first.
#[derive(Clone, Copy, Debug)]
pub struct Ipv6Addr {
    pub segments: [u16; 8],
}

impl PartialEq for Ipv6Addr {
    fn eq(&self, other: &Self) -> (same: bool) {
        let mut i: usize = 0;
        while i < 8
            invariant
                i <= 8,
                forall|j: int| 0 <= j < i ==> self.segments[j] == other.segments[j],
            decreases 8 - i,
        {
            if self.segments[i] != other.segments[i] {
                return false;
            }
            i += 1;
        }
        assert(self.segments =~= other.segments);
        true
    }
}

impl Eq for Ipv6Addr {

}

impl vstd::std_specs::cmp::PartialEqSpecImpl for Ipv6Addr {
    open spec fn obeys_eq_spec() -> bool {
        true
    }

    open spec fn eq_spec(&self, other: &Self) -> bool {
        *self == *other
    }
}

/// An address of any kind. Only the IPv6 ones matter here.
#[derive(Clone, Copy, Debug)]
pub enum IpAddr {
    V4,
    V6(Ipv6Addr),
}

/// Addresses with the same segments are the same.
pub proof fn lemma_same_segments(a: Ipv6Addr, b: Ipv6Addr)
    requires
        a.segments@ == b.segments@,
    ensures
        a == b,
{
    assert forall|i: int| 0 <= i < 8 implies a.segments[i] == b.segments[i] by {
        assert(a.segments@[i] == b.segments@[i]);
    }
    assert(a.segments =~= b.segments);
}

// The grammar of the text form.

/// A group: one to four hexadecimal digits.
pub open spec fn is_group(s: Seq<char>) -> bool {
    1 <= s.len() <= 4 && crate::number::all_digits(s, 16)
}

/// The segment that a group spells.
pub open spec fn group_value(s: Seq<char>) -> u16 {
    crate::number::value_of(s, 16) as u16
}

/// An octet: one to three decimal digits without a superfluous zero, at most 255.
pub open spec fn is_octet(s: Seq<char>) -> bool {
    &&& 1 <= s.len() <= 3
    &&& crate::number::all_digits(s, 10)
    &&& crate::number::value_of(s, 10) <= 255
    &&& s.len() > 1 ==> s[0] != '0'
}

/// The number that an octet spells.
pub open spec fn octet_value(s: Seq<char>) -> int {
    crate::number::value_of(s, 10)
}

/// Four octets with dots between them.
pub open spec fn is_dotted(s: Seq<char>) -> bool {
    let parts = crate::text::split(s, '.');
    parts.len() == 4 && forall|i: int| 0 <= i < 4 ==> is_octet(#[trigger] parts[i])
}

/// The two segments that four dotted octets stand for.
pub open spec fn dotted_groups(s: Seq<char>) -> Seq<u16> {
    let parts = crate::text::split(s, '.');
    seq![
        (octet_value(parts[0]) * 256 + octet_value(parts[1])) as u16,
        (octet_value(parts[2]) * 256 + octet_value(parts[3])) as u16,
    ]
}

/// Whether each of `parts` is a group.
pub open spec fn all_groups(parts: Seq<Seq<char>>) -> bool {
    forall|i: int| 0 <= i < parts.len() ==> is_group(#[trigger] parts[i])
}

/// The segments of `parts`.
pub open spec fn group_values(parts: Seq<Seq<char>>) -> Seq<u16> {
    parts.map_values(|p: Seq<char>| group_value(p))
}

/// The segments of groups with colons between them; the last may be written as
/// four dotted octets if `dotted` allows it. No text at all stands for no segments.
pub open spec fn groups(s: Seq<char>, dotted: bool) -> Option<Seq<u16>> {
    let parts = crate::text::split(s, ':');
    if s.len() == 0 {
        Some(Seq::empty())
    } else if all_groups(parts) {
        Some(group_values(parts))
    } else if dotted && all_groups(parts.drop_last()) && is_dotted(parts.last()) {
        Some(group_values(parts.drop_last()) + dotted_groups(parts.last()))
    } else {
        None
    }
}

/// Position of the first pair of adjacent colons, or the length of `s`.
pub open spec fn double_colon(s: Seq<char>) -> int
    decreases s.len(),
{
    if s.len() < 2 {
        s.len() as int
    } else if s[0] == ':' && s[1] == ':' {
        0
    } else {
        1 + double_colon(s.drop_first())
    }
}

/// So many zero segments.
pub open spec fn zeros(n: int) -> Seq<u16> {
    Seq::new(n as nat, |i: int| 0u16)
}

/// The segments that `s` denotes as an address: all eight written out, or fewer
/// on the two sides of a double colon that stands for the zero segments missing.
pub open spec fn parsed(s: Seq<char>) -> Option<Seq<u16>> {
    let k = double_colon(s);
    if k >= s.len() {
        match groups(s, true) {
            Some(g) => if g.len() == 8 {
                Some(g)
            } else {
                None
            },
            None => None,
        }
    } else {
        match (groups(s.take(k), false), groups(s.skip(k + 2), true)) {
            (Some(head), Some(tail)) => if head.len() + tail.len() <= 7 {
                Some(head + zeros(8 - head.len() - tail.len()) + tail)
            } else {
                None
            },
            _ => None,
        }
    }
}

// Writing.

/// The spelling of one segment.
pub open spec fn hex(v: u16) -> Seq<char> {
    crate::number::digits_of(v as int, 16)
}

/// The spelling of one octet.
pub open spec fn decimal(v: int) -> Seq<char> {
    crate::number::digits_of(v, 10)
}

/// Segments in hexadecimal with colons between them.
pub open spec fn hex_groups(g: Seq<u16>) -> Seq<char> {
    crate::text::join(g.map_values(|v: u16| hex(v)), ':')
}

/// Two segments as four dotted octets.
pub open spec fn dotted_text(hi: u16, lo: u16) -> Seq<char> {
    crate::text::join(
        seq![
            decimal(hi as int / 256),
            decimal(hi as int % 256),
            decimal(lo as int / 256),
            decimal(lo as int % 256),
        ],
        '.',
    )
}

/// How many zero segments there are from `i` on without a gap.
pub open spec fn zero_run(s: Seq<u16>, i: int) -> int
    decreases s.len() - i,
{
    if 0 <= i < s.len() && s[i] == 0 {
        1 + zero_run(s, i + 1)
    } else {
        0
    }
}

/// Where the longest run of zero segments among those that start at `i` or later
/// starts; the first of them if several are as long.
pub open spec fn longest_from(s: Seq<u16>, i: int) -> int
    decreases s.len() - i,
{
    if i + 1 >= s.len() {
        i
    } else {
        let later = longest_from(s, i + 1);
        if zero_run(s, i) >= zero_run(s, later) {
            i
        } else {
            later
        }
    }
}

/// Whether the segments are those of an IPv4 address mapped into IPv6.
pub open spec fn is_mapped(s: Seq<u16>) -> bool {
    s[0] == 0 && s[1] == 0 && s[2] == 0 && s[3] == 0 && s[4] == 0 && s[5] == 0xffff
}

/// The canonical text of an address: lower-case hexadecimal without superfluous
/// zeros, the first longest run of two or more zero segments shortened to a
/// double colon, and a mapped IPv4 address in dotted octets.
pub open spec fn text_of(s: Seq<u16>) -> Seq<char> {
    let at = longest_from(s, 0);
    let run = zero_run(s, at);
    if is_mapped(s) {
        "::ffff:"@ + dotted_text(s[6], s[7])
    } else if run > 1 {
        hex_groups(s.take(at)) + "::"@ + hex_groups(s.skip(at + run))
    } else {
        hex_groups(s)
    }
}

// Reading.

/// Reads one group.
fn read_group(s: &[char]) -> (v: Option<u16>)
    ensures
        match v {
            Some(g) => is_group(s@) && g == group_value(s@),
            None => !is_group(s@),
        },
{
    if s.len() < 1 || s.len() > 4 {
        return None;
    }
    proof {
        crate::number::lemma_value_bound(s@, 16);
        reveal_with_fuel(crate::number::power, 5);
    }
    match read_digits(s, 16) {
        Some(v) => Some(v as u16),
        None => None,
    }
}

/// Reads one octet.
fn read_octet(s: &[char]) -> (v: Option<u16>)
    ensures
        match v {
            Some(n) => is_octet(s@) && n == octet_value(s@),
            None => !is_octet(s@),
        },
{
    if s.len() < 1 || s.len() > 3 || (s.len() > 1 && s[0] == '0') {
        return None;
    }
    proof {
        crate::number::lemma_value_bound(s@, 10);
        reveal_with_fuel(crate::number::power, 4);
    }
    match read_digits(s, 10) {
        Some(v) => if v <= 255 {
            Some(v as u16)
        } else {
            None
        },
        None => None,
    }
}

/// Reads four dotted octets as two segments.
fn read_dotted(s: &[char]) -> (v: Option<(u16, u16)>)
    ensures
        match v {
            Some((hi, lo)) => is_dotted(s@) && seq![hi, lo] == dotted_groups(s@),
            None => !is_dotted(s@),
        },
{
    let parts = split_chars(s, '.');
    let ghost pieces = crate::text::split(s@, '.');
    assert(parts@.len() == pieces.len());
    if parts.len() != 4 {
        return None;
    }
    assert forall|i: int| 0 <= i < 4 implies #[trigger] parts@[i]@ == pieces[i] by {
        assert(crate::text::views(parts@)[i] == pieces[i]);
    }
    let a = read_octet(parts[0].as_slice());
    let b = read_octet(parts[1].as_slice());
    let c = read_octet(parts[2].as_slice());
    let d = read_octet(parts[3].as_slice());
    match (a, b, c, d) {
        (Some(a), Some(b), Some(c), Some(d)) => {
            proof {
                crate::number::lemma_value_nonneg(pieces[0], 10);
                crate::number::lemma_value_nonneg(pieces[1], 10);
                crate::number::lemma_value_nonneg(pieces[2], 10);
                crate::number::lemma_value_nonneg(pieces[3], 10);
            }
            assert(seq![(a * 256 + b) as u16, (c * 256 + d) as u16] =~= dotted_groups(s@));
            Some((a * 256 + b, c * 256 + d))
        },
        _ => {
            assert(!is_octet(pieces[0]) || !is_octet(pieces[1]) || !is_octet(pieces[2])
                || !is_octet(pieces[3]));
            None
        },
    }
}

/// Reads the first `n` of `parts` as groups.
fn read_groups(parts: &Vec<Vec<char>>, n: usize) -> (v: Option<Vec<u16>>)
    requires
        n <= parts.len(),
    ensures
        match v {
            Some(g) => all_groups(crate::text::views(parts@).take(n as int)) && g@ == group_values(
                crate::text::views(parts@).take(n as int),
            ),
            None => !all_groups(crate::text::views(parts@).take(n as int)),
        },
{
    let ghost pieces = crate::text::views(parts@);
    let mut g: Vec<u16> = Vec::new();
    let mut i: usize = 0;
    while i < n
        invariant
            i <= n <= parts.len(),
            pieces == crate::text::views(parts@),
            all_groups(pieces.take(i as int)),
            g@ == group_values(pieces.take(i as int)),
        decreases n - i,
    {
        assert(pieces[i as int] == parts@[i as int]@);
        match read_group(parts[i].as_slice()) {
            Some(v) => {
                g.push(v);
            },
            None => {
                assert(pieces.take(n as int)[i as int] == pieces[i as int]);
                return None;
            },
        }
        let ghost longer = pieces.take(i + 1);
        assert forall|j: int| 0 <= j < longer.len() implies is_group(#[trigger] longer[j]) by {
            if j < i {
                assert(pieces.take(i as int)[j] == longer[j]);
            }
        }
        assert(g@ =~= group_values(longer));
        i += 1;
    }
    Some(g)
}

/// Reads groups with colons between them, see [`groups`].
fn read_side(s: &[char], dotted: bool) -> (v: Option<Vec<u16>>)
    ensures
        match v {
            Some(g) => groups(s@, dotted) == Some(g@),
            None => groups(s@, dotted) is None,
        },
{
    if s.len() == 0 {
        let none: Vec<u16> = Vec::new();
        return Some(none);
    }
    let parts = split_chars(s, ':');
    let ghost pieces = crate::text::split(s@, ':');
    let n = parts.len();
    assert(pieces.len() == n);
    assert(pieces.take(n as int) =~= pieces);
    assert(pieces.take(n - 1) =~= pieces.drop_last());
    match read_groups(&parts, n) {
        Some(g) => Some(g),
        None => {
            if !dotted {
                return None;
            }
            let mut g = match read_groups(&parts, n - 1) {
                Some(g) => g,
                None => {
                    return None;
                },
            };
            assert(parts@[n - 1]@ == crate::text::views(parts@)[n - 1]);
            match read_dotted(parts[n - 1].as_slice()) {
                Some((hi, lo)) => {
                    let ghost head = g@;
                    g.push(hi);
                    g.push(lo);
                    assert(g@ =~= head + seq![hi, lo]);
                    Some(g)
                },
                None => None,
            }
        },
    }
}

/// What [`double_colon`] says about the characters of `s`.
pub proof fn lemma_double_colon(s: Seq<char>)
    ensures
        0 <= double_colon(s) <= s.len(),
        forall|i: int|
            0 <= i < double_colon(s) && i + 1 < s.len() ==> !(#[trigger] s[i] == ':' && s[i + 1]
                == ':'),
        double_colon(s) < s.len() ==> double_colon(s) + 1 < s.len() && s[double_colon(s)] == ':'
            && s[double_colon(s) + 1] == ':',
    decreases s.len(),
{
    if s.len() >= 2 && !(s[0] == ':' && s[1] == ':') {
        let rest = s.drop_first();
        lemma_double_colon(rest);
        assert forall|i: int| 0 <= i < double_colon(s) && i + 1 < s.len() implies !(
        #[trigger] s[i] == ':' && s[i + 1] == ':') by {
            if i > 0 {
                assert(rest[i - 1] == s[i] && rest[i] == s[i + 1]);
            }
        }
    }
}

/// The first pair of colons is the only position with no such pair before it.
pub proof fn lemma_double_colon_is(s: Seq<char>, k: int)
    requires
        0 <= k <= s.len(),
        forall|i: int|
            0 <= i < k && i + 1 < s.len() ==> !(#[trigger] s[i] == ':' && s[i + 1] == ':'),
        k < s.len() ==> k + 1 < s.len() && s[k] == ':' && s[k + 1] == ':',
    ensures
        double_colon(s) == k,
{
    lemma_double_colon(s);
    let d = double_colon(s);
    if d < k {
        assert(s[d] == ':');
    } else if k < d {
        assert(s[k] == ':');
    }
}

/// Finds the first pair of adjacent colons, or the length of `s`.
fn find_double_colon(s: &[char]) -> (k: usize)
    ensures
        k == double_colon(s@),
{
    let mut k: usize = 0;
    while k < s.len() && s.len() - k >= 2
        invariant
            k <= s.len(),
            forall|i: int|
                0 <= i < k && i + 1 < s@.len() ==> !(#[trigger] s@[i] == ':' && s@[i + 1] == ':'),
        decreases s.len() - k,
    {
        if s[k] == ':' && s[k + 1] == ':' {
            proof {
                lemma_double_colon_is(s@, k as int);
            }
            return k;
        }
        k += 1;
    }
    proof {
        lemma_double_colon_is(s@, s@.len() as int);
    }
    s.len()
}

/// The address with the eight segments of `g`.
fn from_groups(g: &Vec<u16>) -> (a: Ipv6Addr)
    requires
        g@.len() == 8,
    ensures
        a.segments@ == g@,
{
    let a = Ipv6Addr { segments: [g[0], g[1], g[2], g[3], g[4], g[5], g[6], g[7]] };
    assert(a.segments@ =~= g@);
    a
}

impl Ipv6Addr {
    /// The address with the given segments.
    pub fn new(a: u16, b: u16, c: u16, d: u16, e: u16, f: u16, g: u16, h: u16) -> (addr: Ipv6Addr)
        ensures
            addr.segments@ == seq![a, b, c, d, e, f, g, h],
    {
        let addr = Ipv6Addr { segments: [a, b, c, d, e, f, g, h] };
        assert(addr.segments@ =~= seq![a, b, c, d, e, f, g, h]);
        addr
    }

    /// Reads the text form of an address.
    pub fn parse(s: &str) -> (addr: Option<Ipv6Addr>)
        ensures
            match addr {
                Some(a) => parsed(s@) == Some(a.segments@),
                None => parsed(s@) is None,
            },
    {
        let chars = to_chars(s);
        let all = chars.as_slice();
        let k = find_double_colon(all);
        proof {
            lemma_double_colon(s@);
        }
        if k == all.len() {
            match read_side(all, true) {
                Some(g) => if g.len() == 8 {
                    Some(from_groups(&g))
                } else {
                    None
                },
                None => None,
            }
        } else {
            let left = slice_subrange(all, 0, k);
            let right = slice_subrange(all, k + 2, all.len());
            assert(left@ == s@.take(k as int));
            assert(right@ == s@.skip(k + 2));
            match (read_side(left, false), read_side(right, true)) {
                (Some(head), Some(tail)) => {
                    if head.len() > 7 || tail.len() > 7 - head.len() {
                        return None;
                    }
                    let g = fill_zeros(head, &tail);
                    Some(from_groups(&g))
                },
                _ => None,
            }
        }
    }
}

/// Puts `tail` behind `head` with as many zeros between them as make eight segments.
fn fill_zeros(head: Vec<u16>, tail: &Vec<u16>) -> (g: Vec<u16>)
    requires
        head@.len() + tail@.len() <= 8,
    ensures
        g@ == head@ + zeros(8 - head@.len() - tail@.len()) + tail@,
{
    let mut g = head;
    let end: usize = 8 - tail.len();
    while g.len() < end
        invariant
            head@.len() <= g@.len() <= end,
            end + tail@.len() == 8,
            g@ == head@ + zeros(g@.len() - head@.len()),
        decreases end - g.len(),
    {
        g.push(0);
        assert(g@ =~= head@ + zeros(g@.len() - head@.len()));
    }
    let ghost padded = g@;
    let mut i: usize = 0;
    while i < tail.len()
        invariant
            i <= tail.len(),
            g@ == padded + tail@.take(i as int),
        decreases tail.len() - i,
    {
        g.push(tail[i]);
        i += 1;
        assert(g@ =~= padded + tail@.take(i as int));
    }
    assert(tail@.take(i as int) =~= tail@);
    g
}

// Writing.

/// Joining one more piece in front of others.
proof fn lemma_join_front(parts: Seq<Seq<char>>, i: int, sep: char)
    requires
        0 <= i < parts.len(),
    ensures
        crate::text::join(parts.skip(i), sep) == if i + 1 < parts.len() {
            parts[i] + seq![sep] + crate::text::join(parts.skip(i + 1), sep)
        } else {
            parts[i]
        },
{
    let rest = parts.skip(i);
    assert(rest[0] == parts[i]);
    assert(rest.drop_first() =~= parts.skip(i + 1));
}

/// Writes segments in hexadecimal with colons between them.
fn push_hex_groups(out: &mut String, g: &[u16])
    ensures
        final(out)@ == old(out)@ + hex_groups(g@),
{
    let ghost parts = g@.map_values(|v: u16| hex(v));
    assert(parts.skip(0) =~= parts);
    let mut i: usize = 0;
    while i < g.len()
        invariant
            i <= g.len(),
            parts == g@.map_values(|v: u16| hex(v)),
            old(out)@ + hex_groups(g@) == out@ + crate::text::join(parts.skip(i as int), ':'),
        decreases g.len() - i,
    {
        proof {
            lemma_join_front(parts, i as int, ':');
        }
        let ghost before = out@;
        push_number(out, g[i] as u64, 16);
        assert(out@ == before + parts[i as int]);
        if i + 1 < g.len() {
            out.push(':');
            assert(before + (parts[i as int] + seq![':'] + crate::text::join(
                parts.skip(i + 1),
                ':',
            )) =~= out@ + crate::text::join(parts.skip(i + 1), ':'));
        } else {
            assert(parts.skip(i + 1) =~= Seq::<Seq<char>>::empty());
            assert(out@ + crate::text::join(parts.skip(i + 1), ':') =~= out@);
        }
        i += 1;
    }
    assert(parts.skip(i as int) =~= Seq::<Seq<char>>::empty());
    assert(out@ + crate::text::join(parts.skip(i as int), ':') =~= out@);
}

/// Writes two segments as four dotted octets.
fn push_dotted(out: &mut String, hi: u16, lo: u16)
    ensures
        final(out)@ == old(out)@ + dotted_text(hi, lo),
{
    push_number(out, (hi / 256) as u64, 10);
    out.push('.');
    push_number(out, (hi % 256) as u64, 10);
    out.push('.');
    push_number(out, (lo / 256) as u64, 10);
    out.push('.');
    push_number(out, (lo % 256) as u64, 10);
    proof {
        let parts = seq![
            decimal(hi as int / 256),
            decimal(hi as int % 256),
            decimal(lo as int / 256),
            decimal(lo as int % 256),
        ];
        assert(parts.skip(0) =~= parts);
        lemma_join_front(parts, 0, '.');
        lemma_join_front(parts, 1, '.');
        lemma_join_front(parts, 2, '.');
        lemma_join_front(parts, 3, '.');
        assert(out@ =~= old(out)@ + dotted_text(hi, lo));
    }
}

/// A run of zero segments lies within the address, and its segments are zero.
proof fn lemma_zero_run(s: Seq<u16>, i: int)
    requires
        0 <= i <= s.len(),
    ensures
        0 <= zero_run(s, i) <= s.len() - i,
        forall|j: int| i <= j < i + zero_run(s, i) ==> s[j] == 0,
    decreases s.len() - i,
{
    if i < s.len() && s[i] == 0 {
        lemma_zero_run(s, i + 1);
    }
}

/// Where the longest run starts is a position of the address.
proof fn lemma_longest_in_range(s: Seq<u16>, i: int)
    requires
        0 <= i < s.len(),
    ensures
        i <= longest_from(s, i) < s.len(),
    decreases s.len() - i,
{
    if i + 1 < s.len() {
        lemma_longest_in_range(s, i + 1);
    }
}

/// The run that the canonical text shortens is a longest one, and every run that
/// starts before it is shorter.
pub proof fn law_longest_run(s: Seq<u16>, i: int)
    requires
        0 <= i < s.len(),
    ensures
        forall|j: int|
            i <= j < s.len() ==> #[trigger] zero_run(s, j) <= zero_run(s, longest_from(s, i)),
        forall|j: int|
            i <= j < longest_from(s, i) ==> #[trigger] zero_run(s, j) < zero_run(
                s,
                longest_from(s, i),
            ),
    decreases s.len() - i,
{
    if i + 1 < s.len() {
        law_longest_run(s, i + 1);
    }
}

/// Finds the first longest run of zero segments: where it starts, and its length.
fn longest_run(s: &[u16; 8]) -> (found: (usize, usize))
    ensures
        found.0 == longest_from(s@, 0),
        found.1 == zero_run(s@, found.0 as int),
        found.0 + found.1 <= 8,
{
    let mut i: usize = 7;
    let mut run: usize = if s[7] == 0 {
        1
    } else {
        0
    };
    assert(zero_run(s@, 8) == 0);
    let mut at: usize = 7;
    let mut best: usize = run;
    while i > 0
        invariant
            i <= 7,
            run == zero_run(s@, i as int),
            run <= 8 - i,
            i <= at <= 7,
            at == longest_from(s@, i as int),
            best == zero_run(s@, at as int),
            best <= 8 - at,
        decreases i,
    {
        i -= 1;
        if s[i] == 0 {
            run += 1;
        } else {
            run = 0;
        }
        if run >= best {
            at = i;
            best = run;
        }
    }
    (at, best)
}

/// Whether the address is a mapped IPv4 address.
fn is_mapped_addr(s: &[u16; 8]) -> (mapped: bool)
    ensures
        mapped == is_mapped(s@),
{
    s[0] == 0 && s[1] == 0 && s[2] == 0 && s[3] == 0 && s[4] == 0 && s[5] == 0xffff
}

impl Ipv6Addr {
    /// The canonical text of the address.
    pub fn to_string(&self) -> (s: String)
        ensures
            s@ == text_of(self.segments@),
    {
        let mut s = String::new();
        let (at, run) = longest_run(&self.segments);
        let all = self.segments.as_slice();
        if is_mapped_addr(&self.segments) {
            s.append("::ffff:");
            push_dotted(&mut s, self.segments[6], self.segments[7]);
        } else if run > 1 {
            let left = slice_subrange(all, 0, at);
            let right = slice_subrange(all, at + run, 8);
            assert(left@ == self.segments@.take(at as int));
            assert(right@ == self.segments@.skip(at + run));
            push_hex_groups(&mut s, left);
            s.append("::");
            push_hex_groups(&mut s, right);
        } else {
            push_hex_groups(&mut s, all);
        }
        assert(s@ =~= text_of(self.segments@));
        s
    }
}

// What is written can be read back.

/// A spelled segment is a group that reads as the segment.
proof fn lemma_hex(v: u16)
    ensures
        is_group(hex(v)),
        group_value(hex(v)) == v,
        !hex(v).contains(':'),
{
    reveal_with_fuel(crate::number::power, 5);
    crate::number::lemma_digits_of(v as int, 16, 4);
    assert forall|i: int| 0 <= i < hex(v).len() implies hex(v)[i] != ':' by {
        assert(crate::number::digit_value(hex(v)[i], 16) is Some);
    }
}

/// A spelled octet is an octet that reads as the number.
proof fn lemma_decimal(v: int)
    requires
        0 <= v <= 255,
    ensures
        is_octet(decimal(v)),
        octet_value(decimal(v)) == v,
        !decimal(v).contains('.'),
        !decimal(v).contains(':'),
{
    reveal_with_fuel(crate::number::power, 4);
    crate::number::lemma_digits_of(v, 10, 3);
    assert forall|i: int| 0 <= i < decimal(v).len() implies decimal(v)[i] != '.' && decimal(v)[i]
        != ':' by {
        assert(crate::number::digit_value(decimal(v)[i], 10) is Some);
    }
}

/// Written segments read as themselves.
proof fn lemma_groups_of_hex(g: Seq<u16>, dotted: bool)
    ensures
        groups(hex_groups(g), dotted) == Some(g),
{
    let parts = g.map_values(|v: u16| hex(v));
    let text = hex_groups(g);
    assert forall|i: int| 0 <= i < parts.len() implies is_group(#[trigger] parts[i])
        && group_value(parts[i]) == g[i] && !parts[i].contains(':') by {
        lemma_hex(g[i]);
    }
    if g.len() == 0 {
        assert(g =~= Seq::empty());
    } else {
        crate::text::lemma_split_join(parts, ':');
        lemma_no_double_colon(parts);
        assert(group_values(parts) =~= g);
        assert(text.len() > 0);
    }
}

/// Pieces that are neither empty nor hold a colon, when joined by single colons,
/// leave no two colons together and none at either end.
proof fn lemma_no_double_colon(parts: Seq<Seq<char>>)
    requires
        forall|i: int|
            0 <= i < parts.len() ==> (#[trigger] parts[i]).len() > 0 && !parts[i].contains(':'),
    ensures
        ({
            let t = crate::text::join(parts, ':');
            &&& parts.len() > 0 ==> t.len() > 0
            &&& t.len() > 0 ==> t[0] != ':' && t.last() != ':'
            &&& forall|i: int|
                0 <= i && i + 1 < t.len() ==> !(#[trigger] t[i] == ':' && t[i + 1] == ':')
        }),
    decreases parts.len(),
{
    let t = crate::text::join(parts, ':');
    if parts.len() > 0 {
        let first = parts[0];
        assert forall|i: int| 0 <= i < first.len() implies first[i] != ':' by {
            if first[i] == ':' {
                assert(first.contains(':'));
            }
        }
        if parts.len() > 1 {
            let rest = parts.drop_first();
            assert forall|i: int| 0 <= i < rest.len() implies (#[trigger] rest[i]).len() > 0
                && !rest[i].contains(':') by {
                assert(rest[i] == parts[i + 1]);
            }
            lemma_no_double_colon(rest);
            let u = crate::text::join(rest, ':');
            let n = first.len() as int;
            assert(t == first + seq![':'] + u);
            assert forall|i: int| 0 <= i && i + 1 < t.len() implies !(#[trigger] t[i] == ':'
                && t[i + 1] == ':') by {
                if i < n {
                    assert(t[i] == first[i]);
                } else if i == n {
                    assert(t[i + 1] == u[0]);
                } else {
                    assert(t[i] == u[i - n - 1] && t[i + 1] == u[i - n]);
                }
            }
        }
    }
}

/// The same for written segments.
proof fn lemma_hex_groups_colons(g: Seq<u16>)
    ensures
        ({
            let t = hex_groups(g);
            &&& t.len() > 0 ==> t.last() != ':'
            &&& forall|i: int|
                0 <= i && i + 1 < t.len() ==> !(#[trigger] t[i] == ':' && t[i + 1] == ':')
        }),
{
    let parts = g.map_values(|v: u16| hex(v));
    assert forall|i: int| 0 <= i < parts.len() implies (#[trigger] parts[i]).len() > 0
        && !parts[i].contains(':') by {
        lemma_hex(g[i]);
    }
    lemma_no_double_colon(parts);
}

/// Written dotted octets read as the two segments.
proof fn lemma_dotted(hi: u16, lo: u16)
    ensures
        is_dotted(dotted_text(hi, lo)),
        dotted_groups(dotted_text(hi, lo)) == seq![hi, lo],
        !is_group(dotted_text(hi, lo)),
        !dotted_text(hi, lo).contains(':'),
{
    let a = hi as int / 256;
    let b = hi as int % 256;
    let c = lo as int / 256;
    let d = lo as int % 256;
    lemma_decimal(a);
    lemma_decimal(b);
    lemma_decimal(c);
    lemma_decimal(d);
    let parts = seq![decimal(a), decimal(b), decimal(c), decimal(d)];
    let t = dotted_text(hi, lo);
    assert(t == crate::text::join(parts, '.'));
    assert forall|i: int| 0 <= i < parts.len() implies !(#[trigger] parts[i]).contains('.')
        && !parts[i].contains(':') && is_octet(parts[i]) by {
        assert(i == 0 || i == 1 || i == 2 || i == 3);
    }
    crate::text::lemma_split_join(parts, '.');
    assert(crate::text::split(t, '.') == parts);
    assert(dotted_groups(t) =~= seq![hi, lo]);
    crate::text::lemma_join_avoids(parts, '.', ':');
    assert(t[decimal(a).len() as int] == '.');
    assert(crate::number::digit_value('.', 16) is None);
}

/// The text of a mapped IPv4 address reads as the address.
proof fn lemma_round_trip_mapped(s: Seq<u16>)
    requires
        s.len() == 8,
        is_mapped(s),
    ensures
        parsed(text_of(s)) == Some(s),
{
    let dotted = dotted_text(s[6], s[7]);
    let t = text_of(s);
    reveal_strlit("::ffff:");
    lemma_dotted(s[6], s[7]);
    assert(t[0] == ':' && t[1] == ':');
    lemma_double_colon_is(t, 0);
    let tail = t.skip(2);
    let parts = seq![hex(0xffff), dotted];
    assert(hex(0xffff) =~= seq!['f', 'f', 'f', 'f']) by {
        reveal_with_fuel(crate::number::digits_of, 5);
    }
    lemma_hex(0xffff);
    assert(parts.drop_first() =~= seq![dotted]);
    assert(crate::text::join(seq![dotted], ':') == dotted);
    assert(tail =~= crate::text::join(parts, ':'));
    crate::text::lemma_split_join(parts, ':');
    assert(!is_group(parts[1]));
    assert(parts.drop_last() =~= seq![hex(0xffff)]);
    assert(parts.last() == dotted);
    assert(all_groups(parts.drop_last()));
    let g = group_values(parts.drop_last()) + dotted_groups(dotted);
    assert(groups(tail, true) == Some(g));
    assert(g =~= seq![0xffffu16, s[6], s[7]]);
    let none = Seq::<u16>::empty();
    assert(t.take(0) =~= Seq::<char>::empty());
    assert(groups(t.take(0), false) == Some(none));
    assert(none + zeros(5) + g =~= s);
}

/// Every address is what its canonical text denotes.
pub proof fn law_text_round_trip(a: Ipv6Addr)
    ensures
        parsed(text_of(a.segments@)) == Some(a.segments@),
{
    let s = a.segments@;
    let t = text_of(s);
    let at = longest_from(s, 0);
    let run = zero_run(s, at);
    lemma_longest_in_range(s, 0);
    lemma_zero_run(s, at);
    if is_mapped(s) {
        lemma_round_trip_mapped(s);
    } else if run > 1 {
        let head = s.take(at);
        let tail = s.skip(at + run);
        let left = hex_groups(head);
        let right = hex_groups(tail);
        reveal_strlit("::");
        lemma_groups_of_hex(head, false);
        lemma_groups_of_hex(tail, true);
        lemma_hex_groups_colons(head);
        let k = left.len() as int;
        assert(t == left + "::"@ + right);
        assert(t[k] == ':' && t[k + 1] == ':');
        assert forall|i: int| 0 <= i < k && i + 1 < t.len() implies !(#[trigger] t[i] == ':' && t[i
            + 1] == ':') by {
            assert(t[i] == left[i]);
            if i + 1 < k {
                assert(t[i + 1] == left[i + 1]);
            }
        }
        lemma_double_colon_is(t, k);
        assert(t.take(k) =~= left);
        assert(t.skip(k + 2) =~= right);
        assert(head + zeros(8 - head.len() - tail.len()) + tail =~= s);
    } else {
        lemma_groups_of_hex(s, true);
        lemma_hex_groups_colons(s);
        lemma_double_colon_is(t, t.len() as int);
    }
}

/// Different addresses have different canonical texts.
pub proof fn law_text_distinguishes(a: Ipv6Addr, b: Ipv6Addr)
    requires
        text_of(a.segments@) == text_of(b.segments@),
    ensures
        a == b,
{
    law_text_round_trip(a);
    law_text_round_trip(b);
    lemma_same_segments(a, b);
}

// What the grammar reads, and nothing else.

/// A group is one to four hexadecimal digits in either case, and stands for their value.
pub proof fn law_group(s: Seq<char>)
    ensures
        is_group(s) <==> 1 <= s.len() <= 4 && forall|i: int|
            0 <= i < s.len() ==> ('0' <= #[trigger] s[i] <= '9' || 'a' <= s[i] <= 'f' || 'A' <= s[i]
                <= 'F'),
        is_group(s) ==> group_value(s) == crate::number::value_of(s, 16),
{
    if is_group(s) {
        assert forall|i: int| 0 <= i < s.len() implies ('0' <= #[trigger] s[i] <= '9' || 'a' <= s[i]
            <= 'f' || 'A' <= s[i] <= 'F') by {
            assert(crate::number::digit_value(s[i], 16) is Some);
        }
        crate::number::lemma_value_bound(s, 16);
        reveal_with_fuel(crate::number::power, 5);
    }
}

/// An octet is one to three decimal digits, without a zero in front of another digit, of a
/// value of at most 255, and stands for that value.
pub proof fn law_octet(s: Seq<char>)
    ensures
        is_octet(s) <==> 1 <= s.len() <= 3 && (forall|i: int|
            0 <= i < s.len() ==> '0' <= #[trigger] s[i] <= '9') && crate::number::value_of(s, 10)
            <= 255 && (s.len() == 1 || s[0] != '0'),
        octet_value(s) == crate::number::value_of(s, 10),
{
    if is_octet(s) {
        assert forall|i: int| 0 <= i < s.len() implies '0' <= #[trigger] s[i] <= '9' by {
            assert(crate::number::digit_value(s[i], 10) is Some);
        }
    }
}

/// An octet holds neither a dot nor a colon.
proof fn lemma_octet_chars(s: Seq<char>)
    requires
        is_octet(s),
    ensures
        !s.contains('.'),
        !s.contains(':'),
{
    law_octet(s);
}

/// A group holds neither a dot nor a colon.
proof fn lemma_group_chars(s: Seq<char>)
    requires
        is_group(s),
    ensures
        !s.contains('.'),
        !s.contains(':'),
{
    law_group(s);
}

/// Four octets with dots between them are read as two segments, the first octet of each
/// counting 256 times.
pub proof fn law_dotted_octets(a: Seq<char>, b: Seq<char>, c: Seq<char>, d: Seq<char>)
    requires
        is_octet(a),
        is_octet(b),
        is_octet(c),
        is_octet(d),
    ensures
        ({
            let s = a + seq!['.'] + b + seq!['.'] + c + seq!['.'] + d;
            let va = crate::number::value_of(a, 10);
            let vb = crate::number::value_of(b, 10);
            let vc = crate::number::value_of(c, 10);
            let vd = crate::number::value_of(d, 10);
            &&& is_dotted(s)
            &&& dotted_groups(s).len() == 2
            &&& dotted_groups(s)[0] == va * 256 + vb
            &&& dotted_groups(s)[1] == vc * 256 + vd
        }),
{
    let s = a + seq!['.'] + b + seq!['.'] + c + seq!['.'] + d;
    let parts = seq![a, b, c, d];
    let none = Seq::<Seq<char>>::empty();
    lemma_octet_chars(a);
    lemma_octet_chars(b);
    lemma_octet_chars(c);
    lemma_octet_chars(d);
    crate::text::law_join_adds_one_piece(none, a, '.');
    crate::text::law_join_adds_one_piece(none.push(a), b, '.');
    crate::text::law_join_adds_one_piece(none.push(a).push(b), c, '.');
    crate::text::law_join_adds_one_piece(none.push(a).push(b).push(c), d, '.');
    assert(parts =~= none.push(a).push(b).push(c).push(d));
    assert(s =~= crate::text::join(parts, '.'));
    assert forall|i: int| 0 <= i < parts.len() implies !(#[trigger] parts[i]).contains('.')
        && is_octet(parts[i]) by {
        assert(i == 0 || i == 1 || i == 2 || i == 3);
    }
    crate::text::lemma_split_join(parts, '.');
    crate::number::lemma_value_nonneg(a, 10);
    crate::number::lemma_value_nonneg(b, 10);
    crate::number::lemma_value_nonneg(c, 10);
    crate::number::lemma_value_nonneg(d, 10);
}

/// Nothing but four octets with dots between them is read as such.
pub proof fn law_only_dotted_octets(s: Seq<char>)
    requires
        is_dotted(s),
    ensures
        exists|parts: Seq<Seq<char>>| #[trigger]
            crate::text::join(parts, '.') == s && parts.len() == 4 && forall|i: int|
                0 <= i < 4 ==> is_octet(#[trigger] parts[i]),
{
    crate::text::law_join_split(s, '.');
    let parts = crate::text::split(s, '.');
    assert(crate::text::join(parts, '.') == s);
}

/// Dotted octets are no group, are not empty, and hold no colon.
proof fn lemma_dotted_chars(s: Seq<char>)
    requires
        is_dotted(s),
    ensures
        !is_group(s),
        s.len() > 0,
        !s.contains(':'),
{
    let parts = crate::text::split(s, '.');
    crate::text::law_join_split(s, '.');
    assert forall|i: int| 0 <= i < parts.len() implies !(#[trigger] parts[i]).contains(':') by {
        lemma_octet_chars(parts[i]);
    }
    crate::text::lemma_join_avoids(parts, '.', ':');
    crate::text::lemma_first_index(s, '.');
    let k = crate::text::first_index(s, '.');
    if k == s.len() {
        assert(crate::text::split(s, '.') =~= seq![s]);
    }
    assert(s[k] == '.');
    assert(crate::number::digit_value('.', 16) is None);
}

/// The values of groups.
proof fn lemma_group_values(parts: Seq<Seq<char>>)
    requires
        forall|i: int| 0 <= i < parts.len() ==> is_group(#[trigger] parts[i]),
    ensures
        group_values(parts).len() == parts.len(),
        forall|i: int|
            0 <= i < parts.len() ==> #[trigger] group_values(parts)[i] == crate::number::value_of(
                parts[i],
                16,
            ),
{
    assert forall|i: int| 0 <= i < parts.len() implies #[trigger] group_values(parts)[i]
        == crate::number::value_of(parts[i], 16) by {
        law_group(parts[i]);
    }
}

/// Joined groups are read as their values.
proof fn lemma_side(parts: Seq<Seq<char>>, dotted: bool)
    requires
        forall|i: int| 0 <= i < parts.len() ==> is_group(#[trigger] parts[i]),
    ensures
        ({
            let t = crate::text::join(parts, ':');
            &&& groups(t, dotted) == Some(group_values(parts))
            &&& t.len() > 0 ==> t.last() != ':'
            &&& forall|i: int|
                0 <= i && i + 1 < t.len() ==> !(#[trigger] t[i] == ':' && t[i + 1] == ':')
        }),
{
    assert forall|i: int| 0 <= i < parts.len() implies (#[trigger] parts[i]).len() > 0
        && !parts[i].contains(':') by {
        lemma_group_chars(parts[i]);
    }
    lemma_no_double_colon(parts);
    if parts.len() > 0 {
        crate::text::lemma_split_join(parts, ':');
    } else {
        assert(group_values(parts) =~= Seq::<u16>::empty());
    }
}

/// Joined groups with dotted octets behind them are read as their values.
proof fn lemma_dotted_side(parts: Seq<Seq<char>>, octets: Seq<char>)
    requires
        forall|i: int| 0 <= i < parts.len() ==> is_group(#[trigger] parts[i]),
        is_dotted(octets),
    ensures
        ({
            let t = crate::text::join(parts.push(octets), ':');
            &&& groups(t, true) == Some(group_values(parts) + dotted_groups(octets))
            &&& forall|i: int|
                0 <= i && i + 1 < t.len() ==> !(#[trigger] t[i] == ':' && t[i + 1] == ':')
        }),
{
    let all = parts.push(octets);
    lemma_dotted_chars(octets);
    assert forall|i: int| 0 <= i < all.len() implies (#[trigger] all[i]).len() > 0
        && !all[i].contains(':') by {
        if i < parts.len() {
            assert(all[i] == parts[i]);
            lemma_group_chars(parts[i]);
        }
    }
    lemma_no_double_colon(all);
    crate::text::lemma_split_join(all, ':');
    assert(!is_group(all[parts.len() as int]));
    assert(all.drop_last() =~= parts);
    assert(all.last() == octets);
}

/// Two texts around a double colon are read separately if the first one has no two colons
/// together and none at its end.
proof fn lemma_around_double_colon(left: Seq<char>, right: Seq<char>)
    requires
        left.len() > 0 ==> left.last() != ':',
        forall|i: int|
            0 <= i && i + 1 < left.len() ==> !(#[trigger] left[i] == ':' && left[i + 1] == ':'),
    ensures
        ({
            let t = left + seq![':', ':'] + right;
            &&& double_colon(t) == left.len()
            &&& t.take(left.len() as int) == left
            &&& t.skip(left.len() as int + 2) == right
        }),
{
    let t = left + seq![':', ':'] + right;
    let k = left.len() as int;
    assert(t[k] == ':' && t[k + 1] == ':');
    assert forall|i: int| 0 <= i < k && i + 1 < t.len() implies !(#[trigger] t[i] == ':' && t[i + 1]
        == ':') by {
        assert(t[i] == left[i]);
        if i + 1 < k {
            assert(t[i + 1] == left[i + 1]);
        }
    }
    lemma_double_colon_is(t, k);
    assert(t.take(k) =~= left);
    assert(t.skip(k + 2) =~= right);
}

/// Eight groups with colons between them denote the address with their values as segments.
pub proof fn law_reads_eight_groups(parts: Seq<Seq<char>>)
    requires
        parts.len() == 8,
        forall|i: int| 0 <= i < 8 ==> is_group(#[trigger] parts[i]),
    ensures
        parsed(crate::text::join(parts, ':')) matches Some(s) && s.len() == 8 && forall|i: int|
            0 <= i < 8 ==> #[trigger] s[i] == crate::number::value_of(parts[i], 16),
{
    let t = crate::text::join(parts, ':');
    lemma_side(parts, true);
    lemma_group_values(parts);
    lemma_double_colon_is(t, t.len() as int);
}

/// Six groups and four dotted octets denote an address, the octets being its last two
/// segments.
pub proof fn law_reads_six_groups_and_octets(parts: Seq<Seq<char>>, octets: Seq<char>)
    requires
        parts.len() == 6,
        forall|i: int| 0 <= i < 6 ==> is_group(#[trigger] parts[i]),
        is_dotted(octets),
    ensures
        parsed(crate::text::join(parts.push(octets), ':')) matches Some(s) && s.len() == 8 && (
        forall|i: int| 0 <= i < 6 ==> #[trigger] s[i] == crate::number::value_of(parts[i], 16))
            && s[6] == dotted_groups(octets)[0] && s[7] == dotted_groups(octets)[1],
{
    let t = crate::text::join(parts.push(octets), ':');
    lemma_dotted_side(parts, octets);
    lemma_group_values(parts);
    lemma_double_colon_is(t, t.len() as int);
}

/// Up to seven groups around a double colon denote an address: the groups before it are its
/// first segments, those behind it its last ones, and zeros lie between.
pub proof fn law_reads_shortened_groups(head: Seq<Seq<char>>, tail: Seq<Seq<char>>)
    requires
        head.len() + tail.len() <= 7,
        forall|i: int| 0 <= i < head.len() ==> is_group(#[trigger] head[i]),
        forall|i: int| 0 <= i < tail.len() ==> is_group(#[trigger] tail[i]),
    ensures
        parsed(
            crate::text::join(head, ':') + seq![':', ':'] + crate::text::join(tail, ':'),
        ) matches Some(s) && {
            let n = 8 - tail.len();
            &&& s.len() == 8
            &&& forall|i: int|
                0 <= i < head.len() ==> #[trigger] s[i] == crate::number::value_of(head[i], 16)
            &&& forall|i: int| head.len() <= i < n ==> #[trigger] s[i] == 0
            &&& forall|i: int|
                n <= i < 8 ==> #[trigger] s[i] == crate::number::value_of(tail[i - n], 16)
        },
{
    lemma_side(head, false);
    lemma_side(tail, true);
    lemma_group_values(head);
    lemma_group_values(tail);
    lemma_around_double_colon(crate::text::join(head, ':'), crate::text::join(tail, ':'));
}

/// The same with four dotted octets at the end, which are the last two segments.
pub proof fn law_reads_shortened_groups_and_octets(
    head: Seq<Seq<char>>,
    tail: Seq<Seq<char>>,
    octets: Seq<char>,
)
    requires
        head.len() + tail.len() <= 5,
        forall|i: int| 0 <= i < head.len() ==> is_group(#[trigger] head[i]),
        forall|i: int| 0 <= i < tail.len() ==> is_group(#[trigger] tail[i]),
        is_dotted(octets),
    ensures
        parsed(
            crate::text::join(head, ':') + seq![':', ':'] + crate::text::join(
                tail.push(octets),
                ':',
            ),
        ) matches Some(s) && {
            let n = 6 - tail.len();
            &&& s.len() == 8
            &&& forall|i: int|
                0 <= i < head.len() ==> #[trigger] s[i] == crate::number::value_of(head[i], 16)
            &&& forall|i: int| head.len() <= i < n ==> #[trigger] s[i] == 0
            &&& forall|i: int|
                n <= i < 6 ==> #[trigger] s[i] == crate::number::value_of(tail[i - n], 16)
            &&& s[6] == dotted_groups(octets)[0]
            &&& s[7] == dotted_groups(octets)[1]
        },
{
    lemma_side(head, false);
    lemma_dotted_side(tail, octets);
    lemma_group_values(head);
    lemma_group_values(tail);
    lemma_around_double_colon(
        crate::text::join(head, ':'),
        crate::text::join(tail.push(octets), ':'),
    );
}

/// The pieces of one side of an address: groups, or groups and dotted octets.
proof fn lemma_pieces(s: Seq<char>, dotted: bool) -> (parts: Seq<Seq<char>>)
    requires
        groups(s, dotted) is Some,
    ensures
        crate::text::join(parts, ':') == s,
        ({
            let n = groups(s, dotted).unwrap().len();
            ||| n == parts.len() && forall|i: int|
                0 <= i < parts.len() ==> is_group(#[trigger] parts[i])
            ||| dotted && parts.len() > 0 && n == parts.len() + 1 && is_dotted(parts.last())
                && forall|i: int| 0 <= i < parts.len() - 1 ==> is_group(#[trigger] parts[i])
        }),
{
    if s.len() == 0 {
        let none = Seq::<Seq<char>>::empty();
        assert(crate::text::join(none, ':') =~= s);
        none
    } else {
        crate::text::law_join_split(s, ':');
        let parts = crate::text::split(s, ':');
        if !all_groups(parts) {
            assert forall|i: int|
                0 <= i < parts.len() - 1 implies is_group(#[trigger] parts[i]) by {
                assert(parts.drop_last()[i] == parts[i]);
            }
        }
        parts
    }
}

/// Nothing else denotes an address. Without a double colon there are eight groups, or six
/// and dotted octets; with one, its two sides hold groups, the second perhaps with dotted
/// octets at its end, for at most seven segments together.
pub proof fn law_only_addresses_are_read(s: Seq<char>)
    requires
        parsed(s) is Some,
    ensures
        parsed(s).unwrap().len() == 8,
        ({
            ||| exists|parts: Seq<Seq<char>>| #[trigger]
                crate::text::join(parts, ':') == s && {
                    ||| parts.len() == 8 && forall|i: int|
                        0 <= i < 8 ==> is_group(#[trigger] parts[i])
                    ||| parts.len() == 7 && is_dotted(parts[6]) && forall|i: int|
                        0 <= i < 6 ==> is_group(#[trigger] parts[i])
                }
            ||| exists|head: Seq<Seq<char>>, tail: Seq<Seq<char>>|
                #![trigger crate::text::join(head, ':'), crate::text::join(tail, ':')]
                s == crate::text::join(head, ':') + seq![':', ':'] + crate::text::join(tail, ':')
                    && (forall|i: int| 0 <= i < head.len() ==> is_group(#[trigger] head[i])) && {
                    ||| head.len() + tail.len() <= 7 && forall|i: int|
                        0 <= i < tail.len() ==> is_group(#[trigger] tail[i])
                    ||| head.len() + tail.len() <= 6 && tail.len() > 0 && is_dotted(tail.last())
                        && forall|i: int| 0 <= i < tail.len() - 1 ==> is_group(#[trigger] tail[i])
                }
        }),
{
    lemma_double_colon(s);
    let k = double_colon(s);
    if k >= s.len() {
        let parts = lemma_pieces(s, true);
        assert(crate::text::join(parts, ':') == s);
    } else {
        let head = lemma_pieces(s.take(k), false);
        let tail = lemma_pieces(s.skip(k + 2), true);
        assert(s =~= s.take(k) + seq![':', ':'] + s.skip(k + 2));
        assert(s == crate::text::join(head, ':') + seq![':', ':'] + crate::text::join(tail, ':'));
    }
}

// The canonical text.

/// A zero run holds at least what is zero without a gap.
proof fn lemma_zero_run_covers(s: Seq<u16>, i: int, end: int)
    requires
        0 <= i <= end <= s.len(),
        forall|j: int| i <= j < end ==> s[j] == 0,
    ensures
        zero_run(s, i) >= end - i,
    decreases end - i,
{
    lemma_zero_run(s, i);
    if i < end {
        lemma_zero_run_covers(s, i + 1, end);
    }
}

/// The hexadecimal texts of segments.
proof fn lemma_hex_groups(g: Seq<u16>)
    ensures
        hex_groups(g) == crate::text::join(
            Seq::new(g.len(), |i: int| crate::number::digits_of(g[i] as int, 16)),
            ':',
        ),
{
    assert(g.map_values(|v: u16| hex(v)) =~= Seq::new(
        g.len(),
        |i: int| crate::number::digits_of(g[i] as int, 16),
    ));
}

/// The text of an address that is not a mapped one and has no two zero segments together is
/// all its segments in hexadecimal, with colons between them.
pub proof fn law_text_in_full(a: Ipv6Addr)
    requires
        forall|i: int|
            0 <= i < 7 ==> !(#[trigger] a.segments@[i] == 0 && a.segments@[i + 1] == 0),
    ensures
        text_of(a.segments@) == crate::text::join(
            Seq::new(8, |i: int| crate::number::digits_of(a.segments@[i] as int, 16)),
            ':',
        ),
{
    let s = a.segments@;
    let at = longest_from(s, 0);
    assert(!(s[0] == 0 && s[0int + 1] == 0));
    lemma_longest_in_range(s, 0);
    lemma_zero_run(s, at);
    if zero_run(s, at) > 1 {
        assert(s[at] == 0 && s[at + 1] == 0);
    }
    lemma_hex_groups(s);
}

/// The text of an address that is not a mapped one has a double colon in place of its first
/// longest run of two or more zero segments, which starts at `at` and ends before `end`.
pub proof fn law_text_shortened(a: Ipv6Addr, at: int, end: int)
    requires
        0 <= at,
        at + 2 <= end <= 8,
        forall|i: int| at <= i < end ==> #[trigger] a.segments@[i] == 0,
        forall|b: int, e: int|
            0 <= b <= e <= 8 && #[trigger] a.segments@.subrange(b, e) == Seq::new(
                (e - b) as nat,
                |i: int| 0u16,
            ) ==> e - b < end - at || (e - b == end - at && at <= b),
        !(a.segments@[0] == 0 && a.segments@[1] == 0 && a.segments@[2] == 0 && a.segments@[3] == 0
            && a.segments@[4] == 0 && a.segments@[5] == 0xffff),
    ensures
        text_of(a.segments@) == crate::text::join(
            Seq::new(at as nat, |i: int| crate::number::digits_of(a.segments@[i] as int, 16)),
            ':',
        ) + seq![':', ':'] + crate::text::join(
            Seq::new(
                (8 - end) as nat,
                |i: int| crate::number::digits_of(a.segments@[end + i] as int, 16),
            ),
            ':',
        ),
{
    let s = a.segments@;
    let found = longest_from(s, 0);
    let run = zero_run(s, found);
    lemma_longest_in_range(s, 0);
    lemma_zero_run(s, found);
    law_longest_run(s, 0);
    lemma_zero_run_covers(s, at, end);
    assert(zero_run(s, at) <= run);
    assert(s.subrange(found, found + run) =~= Seq::new(
        (found + run - found) as nat,
        |i: int| 0u16,
    ));
    assert(run == end - at && at <= found);
    if at < found {
        assert(zero_run(s, at) < run);
    }
    lemma_hex_groups(s.take(at));
    lemma_hex_groups(s.skip(end));
    assert(Seq::new(
        s.take(at).len(),
        |i: int| crate::number::digits_of(s.take(at)[i] as int, 16),
    ) =~= Seq::new(at as nat, |i: int| crate::number::digits_of(s[i] as int, 16)));
    assert(Seq::new(
        s.skip(end).len(),
        |i: int| crate::number::digits_of(s.skip(end)[i] as int, 16),
    ) =~= Seq::new((8 - end) as nat, |i: int| crate::number::digits_of(s[end + i] as int, 16)));
    reveal_strlit("::");
    assert("::"@ =~= seq![':', ':']);
}

/// The text of a mapped IPv4 address ends in its four octets in decimal.
pub proof fn law_text_of_mapped(a: Ipv6Addr)
    requires
        forall|i: int| 0 <= i < 5 ==> #[trigger] a.segments@[i] == 0,
        a.segments@[5] == 0xffff,
    ensures
        text_of(a.segments@) == seq![':', ':', 'f', 'f', 'f', 'f', ':']
            + crate::number::digits_of(a.segments@[6] as int / 256, 10) + seq!['.']
            + crate::number::digits_of(a.segments@[6] as int % 256, 10) + seq!['.']
            + crate::number::digits_of(a.segments@[7] as int / 256, 10) + seq!['.']
            + crate::number::digits_of(a.segments@[7] as int % 256, 10),
{
    let s = a.segments@;
    assert(s[0] == 0 && s[1] == 0 && s[2] == 0 && s[3] == 0 && s[4] == 0);
    reveal_strlit("::ffff:");
    assert("::ffff:"@ =~= seq![':', ':', 'f', 'f', 'f', 'f', ':']);
    let w = decimal(s[6] as int / 256);
    let x = decimal(s[6] as int % 256);
    let y = decimal(s[7] as int / 256);
    let z = decimal(s[7] as int % 256);
    let none = Seq::<Seq<char>>::empty();
    crate::text::law_join_adds_one_piece(none, w, '.');
    crate::text::law_join_adds_one_piece(none.push(w), x, '.');
    crate::text::law_join_adds_one_piece(none.push(w).push(x), y, '.');
    crate::text::law_join_adds_one_piece(none.push(w).push(x).push(y), z, '.');
    assert(seq![w, x, y, z] =~= none.push(w).push(x).push(y).push(z));
    assert(text_of(s) =~= "::ffff:"@ + w + seq!['.'] + x + seq!['.'] + y + seq!['.'] + z);
}

/// A canonical text holds no percent sign, which would start a zone.
pub proof fn lemma_text_holds_no_percent(a: Ipv6Addr)
    ensures
        !text_of(a.segments@).contains('%'),
{
    let s = a.segments@;
    let t = text_of(s);
    let at = longest_from(s, 0);
    let run = zero_run(s, at);
    lemma_longest_in_range(s, 0);
    lemma_zero_run(s, at);
    if is_mapped(s) {
        reveal_strlit("::ffff:");
        let w = s[6] as int / 256;
        let x = s[6] as int % 256;
        let y = s[7] as int / 256;
        let z = s[7] as int % 256;
        let parts = seq![decimal(w), decimal(x), decimal(y), decimal(z)];
        assert forall|i: int| 0 <= i < parts.len() implies !(#[trigger] parts[i]).contains('%') by {
            let v = if i == 0 {
                w
            } else if i == 1 {
                x
            } else if i == 2 {
                y
            } else {
                z
            };
            assert(parts[i] == decimal(v));
            crate::number::law_spelling(v, 10);
        }
        crate::text::lemma_join_avoids(parts, '.', '%');
        let d = dotted_text(s[6], s[7]);
        assert forall|i: int| 0 <= i < t.len() implies t[i] != '%' by {
            if i >= 7 {
                assert(t[i] == d[i - 7]);
                assert(d.contains(d[i - 7]));
            }
        }
    } else if run > 1 {
        reveal_strlit("::");
        let left = hex_groups(s.take(at));
        let right = hex_groups(s.skip(at + run));
        lemma_hex_groups_avoid_percent(s.take(at));
        lemma_hex_groups_avoid_percent(s.skip(at + run));
        assert forall|i: int| 0 <= i < t.len() implies t[i] != '%' by {
            if i < left.len() {
                assert(left.contains(left[i]));
            } else if i >= left.len() + 2 {
                assert(t[i] == right[i - left.len() - 2]);
                assert(right.contains(t[i]));
            }
        }
    } else {
        lemma_hex_groups_avoid_percent(s);
    }
}

proof fn lemma_hex_groups_avoid_percent(g: Seq<u16>)
    ensures
        !hex_groups(g).contains('%'),
{
    let parts = g.map_values(|v: u16| hex(v));
    assert forall|i: int| 0 <= i < parts.len() implies !(#[trigger] parts[i]).contains('%') by {
        crate::number::law_spelling(g[i] as int, 16);
    }
    crate::text::lemma_join_avoids(parts, ':', '%');
}

} // verus!
