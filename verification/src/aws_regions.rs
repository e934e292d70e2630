//! Which AWS region owns an address.
//!
//! Compiles the list of address ranges that AWS publishes into a sorted table,
//! and finds in it the most specific range that holds an address. When a game
//! opens a connection to a server in AWS, the region tells which bridge serves
//! it best.

use vstd::prelude::*;
use vstd::string::StrSliceExecFns;

use crate::addr::IpAddr;
use crate::text::{chars_of, parse_ipv4};

verus! {

use crate::text::{
    all_digits, dec, decimal_is_read_back, digits_value, dotted, dotted_is_injective,
    leading_zeros_are_nothing, lemma_dotted_chars,
};
use vstd::arithmetic::div_mod::{
    lemma_fundamental_div_mod, lemma_fundamental_div_mod_converse, lemma_mod_bound,
};
use vstd::arithmetic::power2::{
    lemma2_to64, lemma_pow2_pos, lemma_pow2_strictly_increases, lemma_pow2_unfold, pow2,
};

/// How many addresses a range with this mask length has.
pub open spec fn block_size(mask_len: u8) -> nat {
    pow2((32 - mask_len) as nat)
}

/// The first address of the range of this mask length that holds `ip`.
pub open spec fn network_of(ip: u32, mask_len: u8) -> u32 {
    (ip - ip as nat % block_size(mask_len)) as u32
}

/// The mask length that a text stands for: decimal digits, with at most a plus
/// sign before them, and at most 32.
pub open spec fn mask_value(text: Seq<char>) -> Option<u8> {
    let digits = if text.len() > 0 && text[0] == '+' {
        text.skip(1)
    } else {
        text
    };
    if digits.len() > 0 && all_digits(digits) && digits_value(digits) <= 32 {
        Some(digits_value(digits) as u8)
    } else {
        None
    }
}

/// Whether a text is an address, a slash and a mask length.
pub open spec fn is_cidr(text: Seq<char>, ip: u32, mask: Seq<char>) -> bool {
    text == dotted(ip) + seq!['/'] + mask && mask_value(mask) is Some
}

/// The range that a text stands for: its first address and mask length.
pub open spec fn cidr(text: Seq<char>) -> Option<(u32, u8)> {
    if exists|ip: u32, mask: Seq<char>| is_cidr(text, ip, mask) {
        let (ip, mask) = choose|ip: u32, mask: Seq<char>| is_cidr(text, ip, mask);
        let mask_len = mask_value(mask)->Some_0;
        Some((network_of(ip, mask_len), mask_len))
    } else {
        None
    }
}

proof fn lemma_block_size(mask_len: u8)
    requires
        mask_len <= 32,
    ensures
        1 <= block_size(mask_len) <= 0x1_0000_0000,
        mask_len < 32 ==> block_size(mask_len) == 2 * block_size((mask_len + 1) as u8),
        block_size(32) == 1,
{
    lemma2_to64();
    lemma_pow2_pos((32 - mask_len) as nat);
    if mask_len > 0 {
        lemma_pow2_strictly_increases((32 - mask_len) as nat, 32);
    }
    if mask_len < 32 {
        lemma_pow2_unfold((32 - mask_len) as nat);
    }
}

/// A range of this size that starts at a multiple of it holds exactly the
/// addresses whose network it is.
proof fn lemma_aligned_holds(network: u32, size: nat, ip: u32)
    requires
        size >= 1,
        network as nat % size == 0,
    ensures
        network <= ip < network + size <==> ip - ip as nat % size == network,
{
    let q = (network as int) / (size as int);
    lemma_fundamental_div_mod(network as int, size as int);
    lemma_fundamental_div_mod(ip as int, size as int);
    lemma_mod_bound(ip as int, size as int);
    assert(size as int * q == q * size as int) by (nonlinear_arith);
    if network <= ip < network + size {
        lemma_fundamental_div_mod_converse(ip as int, size as int, q, ip - network);
    }
}

proof fn lemma_network_aligned(ip: u32, size: nat)
    requires
        size >= 1,
    ensures
        0 <= ip as nat % size <= ip,
        ((ip - ip as nat % size) as nat) % size == 0,
{
    let r = ip as int % size as int;
    let q = ip as int / size as int;
    lemma_fundamental_div_mod(ip as int, size as int);
    lemma_mod_bound(ip as int, size as int);
    assert(q * size as int == size as int * q) by (nonlinear_arith);
    assert(size as int * q >= 0) by (nonlinear_arith)
        requires
            size >= 1,
            q >= 0,
    ;
    lemma_fundamental_div_mod_converse(ip - r, size as int, q, 0);
}

/// The size of a range with this mask length.
fn block_size_of(mask_len: u8) -> (size: u64)
    requires
        mask_len <= 32,
    ensures
        size == block_size(mask_len),
{
    let mut size: u64 = 1;
    let mut m: u8 = 32;
    proof {
        lemma_block_size(32);
    }
    while m > mask_len
        invariant
            mask_len <= m <= 32,
            size == block_size(m),
        decreases m,
    {
        proof {
            lemma_block_size((m - 1) as u8);
        }
        size = size * 2;
        m -= 1;
    }
    size
}

/// Reads a mask length.
fn parse_mask(s: &str) -> (r: Option<u8>)
    ensures
        r == mask_value(s@),
{
    let chars = chars_of(s);
    let first: usize = if chars.len() > 0 && chars[0] == '+' {
        1
    } else {
        0
    };
    let ghost digits = if first == 1 {
        s@.skip(1)
    } else {
        s@
    };
    assert(s@.skip(first as int) =~= digits);
    if first == chars.len() {
        return None;
    }
    let mut value: u8 = 0;
    let mut i: usize = first;
    while i < chars.len()
        invariant
            first <= i <= chars@.len(),
            chars@ == s@,
            digits == s@.skip(first as int),
            digits.len() > 0,
            mask_value(s@) == (if all_digits(digits) && digits_value(digits) <= 32 {
                Some(digits_value(digits) as u8)
            } else {
                None
            }),
            all_digits(digits.take(i - first)),
            digits_value(digits.take(i - first)) <= 32 ==> value == digits_value(
                digits.take(i - first),
            ),
            digits_value(digits.take(i - first)) > 32 ==> value == 33,
            value <= 33,
        decreases chars@.len() - i,
    {
        let c: char = chars[i];
        let ghost at = i - first;
        assert(digits[at] == c);
        if !('0' <= c && c <= '9') {
            assert(!all_digits(digits));
            return None;
        }
        proof {
            let next = digits.take(at + 1);
            assert(next.drop_last() =~= digits.take(at));
            assert(next.last() == c);
            assert forall|k: int| 0 <= k < next.len() implies '0' <= #[trigger] next[k] <= '9' by {
                if k < at {
                    assert(digits.take(at)[k] == next[k]);
                }
            }
        }
        let wide: u32 = value as u32 * 10 + (c as u32 - '0' as u32);
        value = if value == 33 || wide > 32 {
            33
        } else {
            wide as u8
        };
        i += 1;
    }
    assert(digits.take(i - first) =~= digits);
    if value == 33 {
        None
    } else {
        Some(value)
    }
}

/// Where the address of a range ends is where its first slash stands.
proof fn lemma_cidr_slash(text: Seq<char>, at: int, ip: u32, mask: Seq<char>)
    requires
        text == dotted(ip) + seq!['/'] + mask,
        0 <= at < text.len(),
        text[at] == '/',
        forall|j: int| 0 <= j < at ==> text[j] != '/',
    ensures
        text.take(at) == dotted(ip),
        text.skip(at + 1) == mask,
{
    let n = dotted(ip).len() as int;
    assert(text[n] == '/');
    if at < n {
        lemma_dotted_chars(ip, at);
        assert(text[at] == dotted(ip)[at]);
    }
    assert(text.take(at) =~= dotted(ip));
    assert(text.skip(at + 1) =~= mask);
}

/// Reads a range in CIDR notation. Bits of the address beyond the mask are
/// dropped.
pub fn parse_cidr(s: &str) -> (r: Option<(u32, u8)>)
    ensures
        r == cidr(s@),
{
    let chars = chars_of(s);
    let mut at: usize = 0;
    while at < chars.len() && chars[at] != '/'
        invariant
            at <= chars@.len(),
            forall|j: int| 0 <= j < at ==> chars@[j] != '/',
        decreases chars@.len() - at,
    {
        at += 1;
    }
    if at == chars.len() {
        proof {
            assert forall|ip: u32, mask: Seq<char>| !is_cidr(s@, ip, mask) by {
                if s@ == dotted(ip) + seq!['/'] + mask {
                    assert(s@[dotted(ip).len() as int] == '/');
                }
            }
        }
        return None;
    }
    let ghost i = at as int;
    proof {
        assert forall|ip: u32, mask: Seq<char>| is_cidr(s@, ip, mask) implies s@.take(i) == dotted(
            ip,
        ) && s@.skip(i + 1) == mask by {
            lemma_cidr_slash(s@, i, ip, mask);
        }
    }
    let ip_text = s.substring_char(0, at);
    let mask_text = s.substring_char(at + 1, chars.len());
    assert(ip_text@ =~= s@.take(i));
    assert(mask_text@ =~= s@.skip(i + 1));
    let mask_len: u8 = match parse_mask(mask_text) {
        Some(mask_len) => mask_len,
        None => {
            return None;
        },
    };
    let ip: u32 = match parse_ipv4(ip_text) {
        Some(ip) => ip,
        None => {
            return None;
        },
    };
    proof {
        assert(s@ =~= dotted(ip) + seq!['/'] + mask_text@);
        assert(is_cidr(s@, ip, mask_text@));
        let (ip2, mask2) = choose|ip2: u32, mask2: Seq<char>| is_cidr(s@, ip2, mask2);
        dotted_is_injective(ip, ip2);
        lemma_block_size(mask_len);
        lemma_network_aligned(ip, block_size(mask_len));
    }
    let size: u64 = block_size_of(mask_len);
    let network: u32 = (ip as u64 - ip as u64 % size) as u32;
    Some((network, mask_len))
}

/// A range as AWS publishes it.
#[derive(Debug)]
pub struct Prefix {
    pub ip_prefix: String,
    pub region: String,
}

/// The list of ranges as AWS publishes it.
#[derive(Debug)]
pub struct AwsRanges {
    pub sync_token: String,
    pub create_date: String,
    pub prefixes: Vec<Prefix>,
}

/// A range: its first address, its mask length, and the region that owns it.
pub type OwnedRange = (u32, u8, Seq<char>);

/// The ranges of a published list, without those that cannot be read.
pub open spec fn readable(prefixes: Seq<Prefix>) -> Seq<OwnedRange>
    decreases prefixes.len(),
{
    if prefixes.len() == 0 {
        Seq::empty()
    } else {
        let front = readable(prefixes.drop_last());
        match cidr(prefixes.last().ip_prefix@) {
            Some((network, mask_len)) => front.push(
                (network, mask_len, prefixes.last().region@),
            ),
            None => front,
        }
    }
}

/// Ranges are sorted by their first address, and then from the shortest mask to
/// the longest.
pub open spec fn sort_key(r: OwnedRange) -> nat {
    r.0 as nat * 64 + r.1 as nat
}

/// Whether a range stands before another in the table: by first address and mask
/// length, and those that agree in both by the order of their regions.
pub open spec fn comes_before(regions: Seq<Seq<char>>, a: OwnedRange, b: OwnedRange) -> bool {
    sort_key(a) < sort_key(b) || (sort_key(a) == sort_key(b) && regions.index_of(a.2)
        < regions.index_of(b.2))
}

/// Whether ranges stand in the order of the table, none of them twice.
pub open spec fn in_order(regions: Seq<Seq<char>>, ranges: Seq<OwnedRange>) -> bool {
    forall|i: int, j: int|
        #![trigger ranges[i], ranges[j]]
        0 <= i < j < ranges.len() ==> comes_before(regions, ranges[i], ranges[j])
}

/// The regions of the ranges, each once, in the order they first occur.
pub open spec fn regions_of(ranges: Seq<OwnedRange>) -> Seq<Seq<char>>
    decreases ranges.len(),
{
    if ranges.len() == 0 {
        Seq::empty()
    } else {
        let front = regions_of(ranges.drop_last());
        if front.contains(ranges.last().2) {
            front
        } else {
            front.push(ranges.last().2)
        }
    }
}

/// Whether a range holds an address.
pub open spec fn holds(r: OwnedRange, ip: u32) -> bool {
    r.0 <= ip < r.0 + block_size(r.1)
}

/// Whether the range at `i` is the most specific that holds an address; of
/// several with the same mask length, the last.
pub open spec fn is_best(ranges: Seq<OwnedRange>, ip: u32, i: int) -> bool {
    &&& 0 <= i < ranges.len()
    &&& holds(ranges[i], ip)
    &&& forall|j: int|
        0 <= j < ranges.len() && holds(#[trigger] ranges[j], ip) ==> ranges[j].1 < ranges[i].1 || (
        ranges[j].1 == ranges[i].1 && j <= i)
}

/// The region that owns an address.
pub open spec fn region_of(ranges: Seq<OwnedRange>, ip: IpAddr) -> Option<Seq<char>> {
    match ip {
        IpAddr::V4(v4) => if exists|i: int| is_best(ranges, v4, i) {
            Some(ranges[choose|i: int| is_best(ranges, v4, i)].2)
        } else {
            None
        },
        IpAddr::V6(_) => None,
    }
}

/// A range with a longer mask wins over every other range that holds the
/// address.
pub proof fn longest_mask_wins(ranges: Seq<OwnedRange>, ip: u32, i: int)
    requires
        0 <= i < ranges.len(),
        holds(ranges[i], ip),
        forall|j: int|
            0 <= j < ranges.len() && j != i && holds(#[trigger] ranges[j], ip) ==> ranges[j].1
                < ranges[i].1,
    ensures
        region_of(ranges, IpAddr::V4(ip)) == Some(ranges[i].2),
{
    lemma_best_decides(ranges, ip, i);
}

/// The most specific range that holds an address decides its region.
proof fn lemma_best_decides(ranges: Seq<OwnedRange>, ip: u32, i: int)
    requires
        is_best(ranges, ip, i),
    ensures
        region_of(ranges, IpAddr::V4(ip)) == Some(ranges[i].2),
{
    assert(exists|k: int| is_best(ranges, ip, k));
    let k = choose|k: int| is_best(ranges, ip, k);
    assert(is_best(ranges, ip, k));
    assert(holds(ranges[i], ip) && holds(ranges[k], ip));
    assert(k == i);
    assert(region_of(ranges, IpAddr::V4(ip)) == Some(ranges[k].2));
}

/// An address has a region exactly where some range holds it.
pub proof fn held_address_has_region(ranges: Seq<OwnedRange>, ip: u32)
    ensures
        region_of(ranges, IpAddr::V4(ip)) is Some <==> exists|i: int|
            0 <= i < ranges.len() && holds(#[trigger] ranges[i], ip),
{
    if exists|i: int| 0 <= i < ranges.len() && holds(#[trigger] ranges[i], ip) {
        let i = choose|i: int| 0 <= i < ranges.len() && holds(#[trigger] ranges[i], ip);
        let best = lemma_best_exists(ranges, ip, i);
        lemma_best_decides(ranges, ip, best);
    }
    if region_of(ranges, IpAddr::V4(ip)) is Some {
        assert(exists|k: int| is_best(ranges, ip, k));
        let k = choose|k: int| is_best(ranges, ip, k);
        assert(holds(ranges[k], ip));
    }
}

proof fn lemma_best_exists(ranges: Seq<OwnedRange>, ip: u32, i: int) -> (best: int)
    requires
        0 <= i < ranges.len(),
        holds(ranges[i], ip),
    ensures
        is_best(ranges, ip, best),
    decreases ranges.len(),
{
    let n = ranges.len() - 1;
    let front = ranges.drop_last();
    assert(forall|j: int| 0 <= j < n ==> front[j] == ranges[j]);
    if exists|j: int| 0 <= j < n && holds(#[trigger] front[j], ip) {
        let j = choose|j: int| 0 <= j < n && holds(#[trigger] front[j], ip);
        let best = lemma_best_exists(front, ip, j);
        assert(holds(front[best], ip));
        if holds(ranges[n], ip) && ranges[n].1 >= ranges[best].1 {
            assert forall|k: int| 0 <= k < ranges.len() && holds(#[trigger] ranges[k], ip) implies (
            ranges[k].1 < ranges[n].1 || (ranges[k].1 == ranges[n].1 && k <= n)) by {
                if k < n {
                    assert(holds(front[k], ip));
                }
            }
            n
        } else {
            assert forall|k: int| 0 <= k < ranges.len() && holds(#[trigger] ranges[k], ip) implies (
            ranges[k].1 < ranges[best].1 || (ranges[k].1 == ranges[best].1 && k <= best)) by {
                if k < n {
                    assert(holds(front[k], ip));
                }
            }
            best
        }
    } else {
        assert forall|k: int| 0 <= k < ranges.len() && holds(#[trigger] ranges[k], ip) implies k
            == n by {
            if k < n {
                assert(holds(front[k], ip));
            }
        }
        n
    }
}

/// The text of a region that was found.
pub open spec fn region_text(r: Option<&str>) -> Option<Seq<char>> {
    match r {
        Some(name) => Some(name@),
        None => None,
    }
}

proof fn lemma_push_contains<A>(s: Seq<A>, a: A, b: A)
    ensures
        s.push(a).contains(b) <==> s.contains(b) || a == b,
{
    if s.contains(b) {
        let i = choose|i: int| 0 <= i < s.len() && s[i] == b;
        assert(s.push(a)[i] == b);
    }
    assert(s.push(a)[s.len() as int] == a);
    if s.push(a).contains(b) && a != b {
        let i = choose|i: int| 0 <= i < s.push(a).len() && s.push(a)[i] == b;
        assert(s[i] == b);
    }
}

/// Every range of a published list starts at a multiple of its size.
proof fn lemma_readable_aligned(prefixes: Seq<Prefix>, r: OwnedRange)
    requires
        readable(prefixes).contains(r),
    ensures
        r.1 <= 32,
        r.0 as nat % block_size(r.1) == 0,
    decreases prefixes.len(),
{
    if prefixes.len() > 0 {
        let front = readable(prefixes.drop_last());
        if let Some((network, mask_len)) = cidr(prefixes.last().ip_prefix@) {
            lemma_push_contains(front, (network, mask_len, prefixes.last().region@), r);
            if front.contains(r) {
                lemma_readable_aligned(prefixes.drop_last(), r);
            } else {
                let (ip, mask) = choose|ip: u32, mask: Seq<char>|
                    is_cidr(prefixes.last().ip_prefix@, ip, mask);
                lemma_block_size(mask_len);
                lemma_network_aligned(ip, block_size(mask_len));
            }
        } else {
            lemma_readable_aligned(prefixes.drop_last(), r);
        }
    }
}

/// A range in compact form.
#[derive(Debug, Clone, Copy)]
struct CompiledPrefix {
    network: u32,
    mask_len: u8,
    /// Index into the table of regions.
    region_idx: usize,
}

/// The table of ranges, ready for lookups.
#[derive(Debug)]
pub struct AwsLookup {
    pub sync_token: String,
    pub create_date: String,
    regions: Vec<String>,
    prefixes: Vec<CompiledPrefix>,
}

spec fn names(regions: Seq<String>) -> Seq<Seq<char>> {
    regions.map_values(|s: String| s@)
}

spec fn ranges(regions: Seq<String>, prefixes: Seq<CompiledPrefix>) -> Seq<OwnedRange> {
    prefixes.map_values(
        |p: CompiledPrefix| (p.network, p.mask_len, regions[p.region_idx as int]@),
    )
}

/// Where a range in compact form stands: by first address and mask length, and
/// then by region.
spec fn rank(p: CompiledPrefix) -> nat {
    (p.network as nat * 64 + p.mask_len as nat) * 0x1_0000_0000_0000_0000 + p.region_idx as nat
}

/// Whether ranges in compact form are sorted, none of them twice.
spec fn ascending(prefixes: Seq<CompiledPrefix>) -> bool {
    &&& forall|i: int| 0 <= i < prefixes.len() ==> (#[trigger] prefixes[i]).mask_len <= 32
    &&& forall|i: int, j: int|
        #![trigger prefixes[i], prefixes[j]]
        0 <= i < j < prefixes.len() ==> rank(prefixes[i]) < rank(prefixes[j])
}

impl AwsLookup {
    /// The ranges of the table, in its order.
    pub closed spec fn table(self) -> Seq<OwnedRange> {
        ranges(self.regions@, self.prefixes@)
    }

    /// The regions of the table.
    pub closed spec fn region_names(self) -> Seq<Seq<char>> {
        names(self.regions@)
    }

    /// The value of the field `sync_token`.
    pub closed spec fn spec_sync_token(self) -> Seq<char> {
        self.sync_token@
    }

    /// The value of the field `create_date`.
    pub closed spec fn spec_create_date(self) -> Seq<char> {
        self.create_date@
    }

    /// The ranges are sorted, and each starts at a multiple of its size.
    pub closed spec fn wf(self) -> bool {
        &&& forall|i: int|
            0 <= i < self.prefixes@.len() ==> (#[trigger] self.prefixes@[i]).region_idx
                < self.regions@.len()
        &&& ascending(self.prefixes@)
        &&& forall|i: int|
            0 <= i < self.table().len() ==> (#[trigger] self.table()[i]).1 <= 32
                && self.table()[i].0 as nat % block_size(self.table()[i].1) == 0
    }

    /// How many ranges there are.
    pub fn prefix_count(&self) -> (n: usize)
        ensures
            n == self.table().len(),
    {
        self.prefixes.len()
    }

    /// How many regions there are.
    pub fn region_count(&self) -> (n: usize)
        ensures
            n == self.region_names().len(),
    {
        self.regions.len()
    }
}

/// How many ranges stand before a rank in a sorted list.
fn find_place(compiled: &Vec<CompiledPrefix>, limit: u128) -> (at: usize)
    requires
        ascending(compiled@),
    ensures
        at <= compiled@.len(),
        forall|i: int| 0 <= i < at ==> rank(#[trigger] compiled@[i]) < limit,
        forall|i: int| at <= i < compiled@.len() ==> rank(#[trigger] compiled@[i]) >= limit,
{
    let mut from: usize = 0;
    let mut to: usize = compiled.len();
    while from < to
        invariant
            ascending(compiled@),
            from <= to <= compiled@.len(),
            forall|i: int| 0 <= i < from ==> rank(#[trigger] compiled@[i]) < limit,
            forall|i: int| to <= i < compiled@.len() ==> rank(#[trigger] compiled@[i]) >= limit,
        decreases to - from,
    {
        let mid: usize = from + (to - from) / 2;
        if rank_of(&compiled[mid]) < limit {
            from = mid + 1;
        } else {
            to = mid;
        }
    }
    from
}

fn rank_of(p: &CompiledPrefix) -> (n: u128)
    ensures
        n == rank(*p),
{
    (p.network as u128 * 64 + p.mask_len as u128) * 0x1_0000_0000_0000_0000 + p.region_idx as u128
}

/// The index of a region in the table of regions, to which it is added if it is
/// not there.
fn region_index(regions: &mut Vec<String>, region: &String) -> (idx: usize)
    ensures
        idx < final(regions)@.len(),
        final(regions)@[idx as int]@ == region@,
        names(final(regions)@) == (if names(old(regions)@).contains(region@) {
            names(old(regions)@)
        } else {
            names(old(regions)@).push(region@)
        }),
        forall|i: int|
            0 <= i < old(regions)@.len() ==> #[trigger] final(regions)@[i] == old(regions)@[i],
        final(regions)@.len() >= old(regions)@.len(),
{
    let mut i: usize = 0;
    while i < regions.len()
        invariant
            regions@ == old(regions)@,
            i <= regions@.len(),
            forall|j: int| 0 <= j < i ==> #[trigger] regions@[j]@ != region@,
        decreases regions@.len() - i,
    {
        if regions[i] == *region {
            assert(names(regions@)[i as int] == region@);
            return i;
        }
        i += 1;
    }
    proof {
        assert forall|j: int| 0 <= j < names(regions@).len() implies names(regions@)[j]
            != region@ by {
            assert(regions@[j]@ != region@);
        }
    }
    regions.push(region.clone());
    assert(names(regions@) =~= names(old(regions)@).push(region@));
    i
}

proof fn lemma_regions_distinct(all: Seq<OwnedRange>)
    ensures
        regions_of(all).no_duplicates(),
    decreases all.len(),
{
    if all.len() > 0 {
        lemma_regions_distinct(all.drop_last());
        let front = regions_of(all.drop_last());
        if !front.contains(all.last().2) {
            assert forall|i: int| 0 <= i < front.len() implies #[trigger] front[i]
                != all.last().2 by {
                assert(front.contains(front[i]));
            }
        }
    }
}

/// A sorted list in compact form stands in the order of the table.
proof fn lemma_in_order(regions: Seq<String>, prefixes: Seq<CompiledPrefix>)
    requires
        names(regions).no_duplicates(),
        ascending(prefixes),
        forall|i: int|
            0 <= i < prefixes.len() ==> (#[trigger] prefixes[i]).region_idx < regions.len(),
    ensures
        in_order(names(regions), ranges(regions, prefixes)),
        ranges(regions, prefixes).no_duplicates(),
{
    let all = ranges(regions, prefixes);
    assert forall|i: int, j: int|
        #![trigger all[i], all[j]]
        0 <= i < j < all.len() implies comes_before(names(regions), all[i], all[j]) && all[i]
        != all[j] by {
        let (p, q) = (prefixes[i], prefixes[j]);
        assert(rank(p) < rank(q));
        lemma_index_of(names(regions), p.region_idx as int);
        lemma_index_of(names(regions), q.region_idx as int);
        assert(names(regions)[p.region_idx as int] == all[i].2);
        assert(names(regions)[q.region_idx as int] == all[j].2);
    }
}

/// The order of the table leaves nothing open: two lists of the same ranges that
/// stand in it are equal.
pub proof fn order_determines_table(
    regions: Seq<Seq<char>>,
    a: Seq<OwnedRange>,
    b: Seq<OwnedRange>,
)
    requires
        in_order(regions, a),
        in_order(regions, b),
        forall|r: OwnedRange| #[trigger] a.contains(r) <==> b.contains(r),
    ensures
        a == b,
    decreases a.len(),
{
    if a.len() == 0 {
        if b.len() > 0 {
            assert(b.contains(b[0]));
            assert(a.contains(b[0]));
        }
        assert(a =~= b);
    } else {
        let (x, y) = (a.last(), b.last());
        assert(a[a.len() - 1] == x);
        assert(a.contains(x));
        let j = choose|j: int| 0 <= j < b.len() && b[j] == x;
        assert(b[b.len() - 1] == y);
        assert(b.contains(y));
        assert(a.contains(y));
        let i = choose|i: int| 0 <= i < a.len() && a[i] == y;
        assert(x == y);
        let (front_a, front_b) = (a.drop_last(), b.drop_last());
        assert(a =~= front_a.push(x));
        assert(b =~= front_b.push(x));
        assert forall|r: OwnedRange| #[trigger] front_a.contains(r) <==> front_b.contains(r) by {
            lemma_push_contains(front_a, x, r);
            lemma_push_contains(front_b, x, r);
            if front_a.contains(x) {
                let k = choose|k: int| 0 <= k < front_a.len() && front_a[k] == x;
                assert(comes_before(regions, a[k], a[a.len() - 1]));
            }
            if front_b.contains(x) {
                let k = choose|k: int| 0 <= k < front_b.len() && front_b[k] == x;
                assert(comes_before(regions, b[k], b[b.len() - 1]));
            }
        }
        assert(in_order(regions, front_a)) by {
            assert(forall|k: int| 0 <= k < front_a.len() ==> front_a[k] == a[k]);
        }
        assert(in_order(regions, front_b)) by {
            assert(forall|k: int| 0 <= k < front_b.len() ==> front_b[k] == b[k]);
        }
        order_determines_table(regions, front_a, front_b);
    }
}

proof fn lemma_index_of<A>(s: Seq<A>, i: int)
    requires
        s.no_duplicates(),
        0 <= i < s.len(),
    ensures
        s.index_of(s[i]) == i,
{
    let k = s.index_of(s[i]);
    assert(s[i] == s[i]);
    assert(0 <= k < s.len() && s[k] == s[i]);
}

proof fn lemma_insert_contains<A>(s: Seq<A>, at: int, a: A, b: A)
    requires
        0 <= at <= s.len(),
    ensures
        s.insert(at, a).contains(b) <==> s.contains(b) || a == b,
{
    let is = s.insert(at, a);
    if s.contains(b) {
        let i = choose|i: int| 0 <= i < s.len() && s[i] == b;
        assert(is[if i < at { i } else { i + 1 }] == b);
    }
    assert(is[at] == a);
    if is.contains(b) && a != b {
        let i = choose|i: int| 0 <= i < is.len() && is[i] == b;
        assert(s[if i < at { i } else { i - 1 }] == b);
    }
}

/// Adds a range to a sorted list, unless it is there.
fn add_range(compiled: &mut Vec<CompiledPrefix>, p: CompiledPrefix, regions: &Vec<String>)
    requires
        ascending(old(compiled)@),
        p.mask_len <= 32,
        p.region_idx < regions@.len(),
        forall|i: int|
            0 <= i < old(compiled)@.len() ==> (#[trigger] old(compiled)@[i]).region_idx
                < regions@.len(),
    ensures
        ascending(final(compiled)@),
        forall|i: int|
            0 <= i < final(compiled)@.len() ==> (#[trigger] final(compiled)@[i]).region_idx
                < regions@.len(),
        forall|r: OwnedRange| #[trigger]
            ranges(regions@, final(compiled)@).contains(r) <==> ranges(
                regions@,
                old(compiled)@,
            ).contains(r) || r == (p.network, p.mask_len, regions@[p.region_idx as int]@),
{
    let ghost was = compiled@;
    let ghost added: OwnedRange = (p.network, p.mask_len, regions@[p.region_idx as int]@);
    let at: usize = find_place(compiled, rank_of(&p));
    if at < compiled.len() && compiled[at].network == p.network && compiled[at].mask_len
        == p.mask_len && compiled[at].region_idx == p.region_idx {
        assert(ranges(regions@, was)[at as int] == added);
        return ;
    }
    compiled.insert(at, p);
    proof {
        let is = compiled@;
        assert forall|i: int, j: int|
            #![trigger is[i], is[j]]
            0 <= i < j < is.len() implies rank(is[i]) < rank(is[j]) by {
            if i != at {
                assert(is[i] == was[if i < at { i } else { i - 1 }]);
            }
            if j != at {
                assert(is[j] == was[if j < at { j } else { j - 1 }]);
                if i == at {
                    assert(rank(was[at as int]) >= rank(p));
                    assert(rank(was[at as int]) != rank(p));
                    assert(rank(was[at as int]) <= rank(was[j - 1]));
                }
            }
        }
        assert forall|i: int| 0 <= i < is.len() implies (#[trigger] is[i]).mask_len <= 32
            && is[i].region_idx < regions@.len() by {
            if i != at {
                assert(is[i] == was[if i < at { i } else { i - 1 }]);
            }
        }
        assert(ranges(regions@, is) =~= ranges(regions@, was).insert(at as int, added));
        assert forall|r: OwnedRange| #[trigger] ranges(regions@, is).contains(r) <==> ranges(
            regions@,
            was,
        ).contains(r) || r == added by {
            lemma_insert_contains(ranges(regions@, was), at as int, added, r);
        }
    }
}

impl AwsLookup {
    /// Compiles a published list of ranges.
    ///
    /// Ranges that cannot be read are passed over. Each of the rest stands in
    /// the table once, in order; the regions are numbered as they first occur.
    pub fn load_bundled(raw: AwsRanges) -> (lookup: AwsLookup)
        ensures
            lookup.wf(),
            lookup.spec_sync_token() == raw.sync_token@,
            lookup.spec_create_date() == raw.create_date@,
            lookup.region_names() == regions_of(readable(raw.prefixes@)),
            lookup.region_names().no_duplicates(),
            in_order(lookup.region_names(), lookup.table()),
            lookup.table().no_duplicates(),
            forall|r: OwnedRange| #[trigger]
                lookup.table().contains(r) <==> readable(raw.prefixes@).contains(r),
            lookup.table().len() == readable(raw.prefixes@).to_set().len(),
    {
        let ghost listed = raw.prefixes@;
        let mut regions: Vec<String> = Vec::new();
        let mut compiled: Vec<CompiledPrefix> = Vec::new();
        let mut i: usize = 0;
        assert(names(regions@) =~= regions_of(readable(listed.take(0))));
        while i < raw.prefixes.len()
            invariant
                i <= listed.len(),
                listed == raw.prefixes@,
                names(regions@) == regions_of(readable(listed.take(i as int))),
                ascending(compiled@),
                forall|j: int|
                    0 <= j < compiled@.len() ==> (#[trigger] compiled@[j]).region_idx
                        < regions@.len(),
                forall|r: OwnedRange| #[trigger]
                    ranges(regions@, compiled@).contains(r) <==> readable(
                        listed.take(i as int),
                    ).contains(r),
            decreases listed.len() - i,
        {
            let ghost front = readable(listed.take(i as int));
            assert(listed.take(i + 1).drop_last() =~= listed.take(i as int));
            assert(listed.take(i + 1).last() == listed[i as int]);
            if let Some((network, mask_len)) = parse_cidr(raw.prefixes[i].ip_prefix.as_str()) {
                let ghost old_regions = regions@;
                let ghost added: OwnedRange = (network, mask_len, listed[i as int].region@);
                let ghost grown = readable(listed.take(i + 1));
                proof {
                    assert(grown == front.push(added));
                    assert(grown.drop_last() =~= front);
                    assert(grown.contains(added)) by {
                        assert(grown[front.len() as int] == added);
                    }
                    lemma_readable_aligned(listed.take(i + 1), added);
                }
                let region_idx: usize = region_index(&mut regions, &raw.prefixes[i].region);
                assert(ranges(regions@, compiled@) =~= ranges(old_regions, compiled@));
                add_range(
                    &mut compiled,
                    CompiledPrefix { network, mask_len, region_idx },
                    &regions,
                );
                proof {
                    assert forall|r: OwnedRange| #[trigger] ranges(regions@, compiled@).contains(r)
                        <==> grown.contains(r) by {
                        lemma_push_contains(front, added, r);
                    }
                }
            }
            i += 1;
        }
        proof {
            assert(listed.take(i as int) =~= listed);
            let all = readable(listed);
            let table = ranges(regions@, compiled@);
            lemma_regions_distinct(all);
            lemma_in_order(regions@, compiled@);
            assert forall|j: int| 0 <= j < table.len() implies (#[trigger] table[j]).1 <= 32
                && table[j].0 as nat % block_size(table[j].1) == 0 by {
                assert(table.contains(table[j]));
                lemma_readable_aligned(listed, table[j]);
            }
            assert(table.to_set() =~= all.to_set());
            table.unique_seq_to_set();
        }
        AwsLookup {
            sync_token: raw.sync_token,
            create_date: raw.create_date,
            regions,
            prefixes: compiled,
        }
    }

    /// The region that owns an address, or `None` if it is not in AWS's space.
    /// Of several ranges that hold it, the most specific one decides. IPv6
    /// addresses are not looked up.
    pub fn region_for(&self, ip: IpAddr) -> (r: Option<&str>)
        requires
            self.wf(),
        ensures
            region_text(r) == region_of(self.table(), ip),
            r is None ==> (ip matches IpAddr::V4(v4) ==> forall|i: int|
                0 <= i < self.table().len() ==> !holds(#[trigger] self.table()[i], v4)),
    {
        let v4: u32 = match ip {
            IpAddr::V4(v4) => v4,
            IpAddr::V6(_) => {
                return None;
            },
        };
        let ghost table = self.table();
        proof {
            assert forall|i: int| 0 <= i < self.prefixes@.len() implies (
            #[trigger] self.prefixes@[i]).mask_len <= 32 by {
                assert(table[i].1 == self.prefixes@[i].mask_len);
            }
        }
        let mut mask_len: u8 = 33;
        let mut size: u64 = 1;
        while mask_len > 0
            invariant
                self.wf(),
                table == self.table(),
                ip == IpAddr::V4(v4),
                mask_len <= 33,
                mask_len <= 32 ==> size == block_size(mask_len),
                mask_len == 33 ==> size == 1,
                forall|i: int|
                    0 <= i < self.prefixes@.len() ==> (#[trigger] self.prefixes@[i]).mask_len <= 32,
                forall|i: int|
                    0 <= i < table.len() && (#[trigger] table[i]).1 >= mask_len ==> !holds(
                        table[i],
                        v4,
                    ),
            decreases mask_len,
        {
            proof {
                lemma_block_size((mask_len - 1) as u8);
            }
            if mask_len <= 32 {
                size = size * 2;
            }
            mask_len -= 1;
            proof {
                lemma_network_aligned(v4, block_size(mask_len));
            }
            let network: u32 = (v4 as u64 - v4 as u64 % size) as u32;
            let key: u64 = network as u64 * 64 + mask_len as u64;
            let limit: u128 = (key as u128 + 1) * 0x1_0000_0000_0000_0000;
            let at: usize = find_place(&self.prefixes, limit);
            proof {
                assert forall|i: int|
                    0 <= i < table.len() && (#[trigger] table[i]).1 == mask_len && holds(
                        table[i],
                        v4,
                    ) implies i < at && sort_key(table[i]) == key by {
                    lemma_aligned_holds(table[i].0, block_size(mask_len), v4);
                    assert(rank(self.prefixes@[i]) < limit);
                }
            }
            if at > 0 {
                let p = self.prefixes[at - 1];
                assert(table[at - 1].0 == p.network && table[at - 1].1 == p.mask_len);
                if p.network == network && p.mask_len == mask_len {
                    proof {
                        lemma_aligned_holds(network, block_size(mask_len), v4);
                        assert(is_best(table, v4, at - 1));
                        lemma_best_decides(table, v4, at - 1);
                    }
                    let name = self.regions[p.region_idx].as_str();
                    assert(name@ == table[at - 1].2);
                    return Some(name);
                }
                proof {
                    assert forall|i: int|
                        0 <= i < table.len() && (#[trigger] table[i]).1 == mask_len implies !holds(
                        table[i],
                        v4,
                    ) by {
                        if holds(table[i], v4) {
                            assert(rank(self.prefixes@[i]) <= rank(self.prefixes@[at - 1]));
                            assert(sort_key(table[i]) <= sort_key(table[at - 1]) <= key);
                        }
                    }
                }
            }
        }
        None
    }
}

// ---------- What the table is for ----------

proof fn lemma_cidr_parts(ip: u32, mask: Seq<char>)
    ensures
        cidr(dotted(ip) + seq!['/'] + mask) == (match mask_value(mask) {
            Some(mask_len) => Some((network_of(ip, mask_len), mask_len)),
            None => None,
        }),
{
    let text = dotted(ip) + seq!['/'] + mask;
    let at = dotted(ip).len() as int;
    assert(text[at] == '/');
    assert forall|j: int| 0 <= j < at implies text[j] != '/' by {
        lemma_dotted_chars(ip, j);
        assert(text[j] == dotted(ip)[j]);
    }
    lemma_cidr_slash(text, at, ip, mask);
    assert forall|ip2: u32, mask2: Seq<char>| is_cidr(text, ip2, mask2) implies ip2 == ip && mask2
        == mask by {
        lemma_cidr_slash(text, at, ip2, mask2);
        dotted_is_injective(ip, ip2);
    }
    if mask_value(mask) is Some {
        assert(is_cidr(text, ip, mask));
        let (ip2, mask2) = choose|ip2: u32, mask2: Seq<char>| is_cidr(text, ip2, mask2);
        assert(is_cidr(text, ip2, mask2));
    }
}

/// An address, a slash and a decimal number read as the range of that mask
/// length around the address, for every mask length up to 32; beyond that the
/// text is no range.
pub proof fn every_mask_length_is_read(ip: u32, mask_len: nat)
    ensures
        mask_len <= 32 ==> cidr(dotted(ip) + seq!['/'] + dec(mask_len)) == Some(
            (network_of(ip, mask_len as u8), mask_len as u8),
        ),
        mask_len > 32 ==> cidr(dotted(ip) + seq!['/'] + dec(mask_len)) is None,
{
    decimal_is_read_back(mask_len);
    assert('0' <= dec(mask_len)[0] <= '9');
    lemma_cidr_parts(ip, dec(mask_len));
}

/// A plus sign or a zero in front of a mask length changes nothing.
pub proof fn mask_length_may_be_padded(ip: u32, mask_len: nat)
    ensures
        cidr(dotted(ip) + seq!['/'] + (seq!['+'] + dec(mask_len))) == cidr(
            dotted(ip) + seq!['/'] + dec(mask_len),
        ),
        cidr(dotted(ip) + seq!['/'] + (seq!['0'] + dec(mask_len))) == cidr(
            dotted(ip) + seq!['/'] + dec(mask_len),
        ),
{
    let digits = dec(mask_len);
    decimal_is_read_back(mask_len);
    assert('0' <= digits[0] <= '9');
    leading_zeros_are_nothing(digits);
    assert((seq!['+'] + digits).skip(1) =~= digits);
    lemma_cidr_parts(ip, digits);
    lemma_cidr_parts(ip, seq!['+'] + digits);
    lemma_cidr_parts(ip, seq!['0'] + digits);
}

/// What reads as a range is an address, a slash, and behind it digits of a value
/// up to 32, at most with a plus sign before them. The range is that of the
/// address.
pub proof fn only_ranges_are_read(text: Seq<char>)
    ensures
        cidr(text) matches Some((network, mask_len)) ==> exists|ip: u32, digits: Seq<char>|
            #![trigger dotted(ip), all_digits(digits)]
            {
                &&& text == dotted(ip) + seq!['/'] + digits || text == dotted(ip) + seq!['/', '+']
                    + digits
                &&& digits.len() > 0 && all_digits(digits) && digits_value(digits) == mask_len
                &&& mask_len <= 32
                &&& network == network_of(ip, mask_len)
            },
{
    if let Some((network, mask_len)) = cidr(text) {
        let (ip, mask) = choose|ip: u32, mask: Seq<char>| is_cidr(text, ip, mask);
        assert(is_cidr(text, ip, mask));
        let digits = if mask.len() > 0 && mask[0] == '+' {
            mask.skip(1)
        } else {
            mask
        };
        if mask[0] == '+' {
            assert(text =~= dotted(ip) + seq!['/', '+'] + digits);
        }
        assert(text == (dotted(ip) + seq!['/'] + digits) || text == dotted(ip) + seq!['/', '+']
            + digits);
    }
}

/// The range around an address holds it, has as many addresses as the bits
/// beyond the mask can tell apart, and starts at a multiple of that.
pub proof fn range_is_around_its_address(ip: u32, mask_len: u8)
    requires
        mask_len <= 32,
    ensures
        ({
            let size = pow2((32 - mask_len) as nat);
            &&& network_of(ip, mask_len) <= ip < network_of(ip, mask_len) + size
            &&& network_of(ip, mask_len) as nat % size == 0
        }),
{
    let size = block_size(mask_len);
    lemma_block_size(mask_len);
    lemma_network_aligned(ip, size);
    lemma_mod_bound(ip as int, size as int);
}

/// The table of a list has the range of every entry that can be read, with the
/// entry's region, and no others.
pub proof fn readable_ranges_are_kept(prefixes: Seq<Prefix>, r: OwnedRange)
    ensures
        readable(prefixes).contains(r) <==> exists|i: int|
            {
                &&& 0 <= i < prefixes.len()
                &&& cidr((#[trigger] prefixes[i]).ip_prefix@) == Some((r.0, r.1))
                &&& prefixes[i].region@ == r.2
            },
    decreases prefixes.len(),
{
    if prefixes.len() > 0 {
        let front = prefixes.drop_last();
        let n = prefixes.len() - 1;
        readable_ranges_are_kept(front, r);
        assert(forall|i: int| 0 <= i < n ==> front[i] == prefixes[i]);
        assert(prefixes[n] == prefixes.last());
        if let Some((network, mask_len)) = cidr(prefixes[n].ip_prefix@) {
            lemma_push_contains(readable(front), (network, mask_len, prefixes[n].region@), r);
        }
        if readable(front).contains(r) {
            let i = choose|i: int|
                {
                    &&& 0 <= i < front.len()
                    &&& cidr((#[trigger] front[i]).ip_prefix@) == Some((r.0, r.1))
                    &&& front[i].region@ == r.2
                };
            assert(prefixes[i].region@ == r.2);
        }
        if exists|i: int|
            {
                &&& 0 <= i < prefixes.len()
                &&& cidr((#[trigger] prefixes[i]).ip_prefix@) == Some((r.0, r.1))
                &&& prefixes[i].region@ == r.2
            } {
            let i = choose|i: int|
                {
                    &&& 0 <= i < prefixes.len()
                    &&& cidr((#[trigger] prefixes[i]).ip_prefix@) == Some((r.0, r.1))
                    &&& prefixes[i].region@ == r.2
                };
            if i < n {
                assert(front[i].region@ == r.2);
            }
        }
    } else {
        assert(readable(prefixes) =~= Seq::empty());
    }
}

/// Every address of a listed range has a region in a table of that list, of
/// whatever mask length the range is.
pub proof fn listed_address_has_region(
    prefixes: Seq<Prefix>,
    table: Seq<OwnedRange>,
    i: int,
    ip: u32,
    mask_len: nat,
    x: u32,
)
    requires
        forall|r: OwnedRange| #[trigger] readable(prefixes).contains(r) ==> table.contains(r),
        0 <= i < prefixes.len(),
        mask_len <= 32,
        prefixes[i].ip_prefix@ == dotted(ip) + seq!['/'] + dec(mask_len),
        x as nat / pow2((32 - mask_len) as nat) == ip as nat / pow2((32 - mask_len) as nat),
    ensures
        region_of(table, IpAddr::V4(x)) is Some,
{
    let m = mask_len as u8;
    let size = block_size(m);
    let r: OwnedRange = (network_of(ip, m), m, prefixes[i].region@);
    every_mask_length_is_read(ip, mask_len);
    readable_ranges_are_kept(prefixes, r);
    assert(prefixes[i].region@ == r.2);
    assert(table.contains(r));
    let k = choose|k: int| 0 <= k < table.len() && table[k] == r;
    lemma_block_size(m);
    lemma_network_aligned(ip, size);
    lemma_fundamental_div_mod(ip as int, size as int);
    lemma_fundamental_div_mod(x as int, size as int);
    lemma_mod_bound(x as int, size as int);
    assert(holds(table[k], x));
    held_address_has_region(table, x);
}

/// A range decides the region of an address where it holds the address and every
/// other range that does has a shorter mask, or the same and an earlier place.
/// Addresses that no range holds have no region, and neither have IPv6
/// addresses.
pub proof fn most_specific_range_decides(ranges: Seq<OwnedRange>, ip: u32, i: int, v6: u128)
    ensures
        ({
            let inside = |j: int|
                ranges[j].0 <= ip < ranges[j].0 + pow2((32 - ranges[j].1) as nat);
            &&& (0 <= i < ranges.len() && inside(i) && forall|j: int|
                0 <= j < ranges.len() && #[trigger] inside(j) ==> ranges[j].1 < ranges[i].1 || (
                ranges[j].1 == ranges[i].1 && j <= i)) ==> region_of(ranges, IpAddr::V4(ip))
                == Some(ranges[i].2)
            &&& (forall|j: int| 0 <= j < ranges.len() ==> !#[trigger] inside(j)) ==> region_of(
                ranges,
                IpAddr::V4(ip),
            ) is None
        }),
        region_of(ranges, IpAddr::V6(v6)) is None,
{
    let inside = |j: int| ranges[j].0 <= ip < ranges[j].0 + pow2((32 - ranges[j].1) as nat);
    assert forall|j: int| 0 <= j < ranges.len() implies #[trigger] holds(ranges[j], ip)
        == inside(j) by {}
    if 0 <= i < ranges.len() && inside(i) && forall|j: int|
        0 <= j < ranges.len() && #[trigger] inside(j) ==> ranges[j].1 < ranges[i].1 || (ranges[j].1
            == ranges[i].1 && j <= i) {
        assert(holds(ranges[i], ip));
        assert forall|j: int| 0 <= j < ranges.len() && holds(#[trigger] ranges[j], ip) implies (
        ranges[j].1 < ranges[i].1 || (ranges[j].1 == ranges[i].1 && j <= i)) by {
            assert(inside(j));
        }
        assert(is_best(ranges, ip, i));
        lemma_best_decides(ranges, ip, i);
    }
    if forall|j: int| 0 <= j < ranges.len() ==> !#[trigger] inside(j) {
        held_address_has_region(ranges, ip);
        assert forall|j: int| 0 <= j < ranges.len() implies !holds(#[trigger] ranges[j], ip) by {
            assert(!inside(j));
        }
    }
}

/// In the table, ranges stand by first address; those that start at the same one
/// from the shortest mask to the longest; and those that agree in both in the
/// order of their regions.
pub proof fn table_is_sorted(regions: Seq<Seq<char>>, ranges: Seq<OwnedRange>, i: int, j: int)
    requires
        in_order(regions, ranges),
        0 <= i < j < ranges.len(),
        ranges[i].1 <= 32,
        ranges[j].1 <= 32,
    ensures
        ranges[i].0 <= ranges[j].0,
        ranges[i].0 == ranges[j].0 ==> ranges[i].1 <= ranges[j].1,
        ranges[i].0 == ranges[j].0 && ranges[i].1 == ranges[j].1 ==> regions.index_of(ranges[i].2)
            < regions.index_of(ranges[j].2),
{
    assert(comes_before(regions, ranges[i], ranges[j]));
}

/// The regions of a list are those of its ranges, and those that occur in the
/// front of the list stand in front.
pub proof fn regions_are_numbered_as_they_occur(a: Seq<OwnedRange>, b: Seq<OwnedRange>, name: Seq<char>)
    ensures
        regions_of(a).contains(name) <==> exists|i: int|
            0 <= i < a.len() && (#[trigger] a[i]).2 == name,
        regions_of(a).is_prefix_of(regions_of(a + b)),
    decreases a.len() + b.len(),
{
    if a.len() > 0 {
        let front = a.drop_last();
        let n = a.len() - 1;
        regions_are_numbered_as_they_occur(front, Seq::empty(), name);
        lemma_push_contains(regions_of(front), a.last().2, name);
        assert(a[n] == a.last());
        assert(forall|i: int| 0 <= i < n ==> front[i] == a[i]);
        if regions_of(front).contains(name) {
            let i = choose|i: int| 0 <= i < front.len() && (#[trigger] front[i]).2 == name;
            assert(a[i].2 == name);
        }
        if exists|i: int| 0 <= i < a.len() && (#[trigger] a[i]).2 == name {
            let i = choose|i: int| 0 <= i < a.len() && (#[trigger] a[i]).2 == name;
            if i < n {
                assert(front[i].2 == name);
            }
        }
    }
    if b.len() > 0 {
        regions_are_numbered_as_they_occur(a, b.drop_last(), name);
        assert((a + b).drop_last() =~= a + b.drop_last());
    } else {
        assert(a + b =~= a);
    }
}

/// The name of a region is given whole.
pub proof fn names_are_given_whole(r: Option<&str>)
    ensures
        r matches Some(name) ==> region_text(r) == Some(name@),
        r is None ==> region_text(r) is None,
{
}

/// The two labels of the list stand in the fields of their names.
proof fn labels_are_fields(lookup: AwsLookup)
    ensures
        lookup.spec_sync_token() == lookup.sync_token@,
        lookup.spec_create_date() == lookup.create_date@,
{
}

} // verus!
