//! Smart route picker.
//!
//! For each new outbound flow, decides whether to let it pass directly or to
//! tunnel it over one of the configured bridges.
//!
//! - Direct costs the client's round trip to the destination.
//! - A bridge costs the client's round trip to the bridge, and the bridge's
//!   round trip to the AWS region of the destination, as the bridge publishes
//!   it.
//!
//! The lowest cost wins. A bridge has to beat direct by a margin, so that paths
//! within the noise of each other do not alternate; ties go to direct, which
//! costs no tunnel and no NAT state.
//!
//! Decisions are kept for each destination address, and made anew once they are
//! older than the rerouting interval.
//!
//! Round trips are signed numbers of nanoseconds; times are nanoseconds of a
//! clock that never goes back.

use vstd::prelude::*;

use crate::addr::{IpAddr, SocketAddr};
use crate::aws_regions::AwsLookup;
use crate::table::Table;
use crate::text::same_text;

verus! {

use crate::aws_regions::{region_of, region_text, OwnedRange};

/// The margin by which a bridge has to beat direct: 2 ms.
pub const DEFAULT_MARGIN_NS: i64 = 2_000_000;

/// How long a decision is kept: 60 s.
pub const REROUTE_INTERVAL_NS: u64 = 60_000_000_000;

/// Round trips by name, of bridges or of regions.
#[derive(Debug)]
pub struct RttTable {
    entries: Vec<(String, i64)>,
}

spec fn rtts_of(entries: Seq<(String, i64)>) -> Map<Seq<char>, i64>
    decreases entries.len(),
{
    if entries.len() == 0 {
        Map::empty()
    } else {
        rtts_of(entries.drop_last()).insert(entries.last().0@, entries.last().1)
    }
}

/// The last entry of a name decides.
proof fn lemma_rtts_of(entries: Seq<(String, i64)>, i: int)
    requires
        0 <= i < entries.len(),
        forall|j: int| i < j < entries.len() ==> (#[trigger] entries[j]).0@ != entries[i].0@,
    ensures
        rtts_of(entries).dom().contains(entries[i].0@),
        rtts_of(entries)[entries[i].0@] == entries[i].1,
    decreases entries.len(),
{
    if i < entries.len() - 1 {
        let front = entries.drop_last();
        assert(forall|j: int| 0 <= j < front.len() ==> front[j] == entries[j]);
        assert(entries[entries.len() - 1].0@ != entries[i].0@);
        lemma_rtts_of(front, i);
    }
}

proof fn lemma_rtts_absent(entries: Seq<(String, i64)>, name: Seq<char>)
    requires
        forall|j: int| 0 <= j < entries.len() ==> (#[trigger] entries[j]).0@ != name,
    ensures
        !rtts_of(entries).dom().contains(name),
    decreases entries.len(),
{
    if entries.len() > 0 {
        let front = entries.drop_last();
        assert(forall|j: int| 0 <= j < front.len() ==> front[j] == entries[j]);
        lemma_rtts_absent(front, name);
        assert(entries[entries.len() - 1].0@ != name);
    }
}

/// Overwriting the last entry of a name gives the name another value.
proof fn lemma_rtts_overwrite(entries: Seq<(String, i64)>, i: int, new: (String, i64))
    requires
        0 <= i < entries.len(),
        new.0@ == entries[i].0@,
        forall|j: int| i < j < entries.len() ==> (#[trigger] entries[j]).0@ != entries[i].0@,
    ensures
        rtts_of(entries.update(i, new)) == rtts_of(entries).insert(new.0@, new.1),
    decreases entries.len(),
{
    let front = entries.drop_last();
    let n = entries.len() - 1;
    let is = entries.update(i, new);
    if i == n {
        assert(is.drop_last() =~= front);
        assert(rtts_of(is) =~= rtts_of(entries).insert(new.0@, new.1));
    } else {
        assert(forall|j: int| 0 <= j < front.len() ==> front[j] == entries[j]);
        assert(is.drop_last() =~= front.update(i, new));
        assert(entries[n].0@ != entries[i].0@);
        lemma_rtts_overwrite(front, i, new);
        assert(rtts_of(is) =~= rtts_of(entries).insert(new.0@, new.1));
    }
}

impl View for RttTable {
    type V = Map<Seq<char>, i64>;

    closed spec fn view(&self) -> Map<Seq<char>, i64> {
        rtts_of(self.entries@)
    }
}

impl RttTable {
    pub fn new() -> (table: RttTable)
        ensures
            table@ == Map::<Seq<char>, i64>::empty(),
    {
        RttTable { entries: Vec::new() }
    }

    /// Where the last entry of a name stands.
    fn find(&self, name: &str) -> (r: Option<usize>)
        ensures
            match r {
                Some(i) => {
                    &&& i < self.entries@.len()
                    &&& self.entries@[i as int].0@ == name@
                    &&& forall|j: int|
                        i < j < self.entries@.len() ==> (#[trigger] self.entries@[j]).0@ != name@
                },
                None => forall|j: int|
                    0 <= j < self.entries@.len() ==> (#[trigger] self.entries@[j]).0@ != name@,
            },
    {
        let mut i: usize = self.entries.len();
        while i > 0
            invariant
                i <= self.entries@.len(),
                forall|j: int|
                    i <= j < self.entries@.len() ==> (#[trigger] self.entries@[j]).0@ != name@,
            decreases i,
        {
            i -= 1;
            if same_text(self.entries[i].0.as_str(), name) {
                return Some(i);
            }
        }
        None
    }

    /// The round trip of a name.
    pub fn get(&self, name: &str) -> (rtt: Option<i64>)
        ensures
            rtt == (if self@.dom().contains(name@) {
                Some(self@[name@])
            } else {
                None
            }),
    {
        match self.find(name) {
            Some(i) => {
                proof {
                    lemma_rtts_of(self.entries@, i as int);
                }
                Some(self.entries[i].1)
            },
            None => {
                proof {
                    lemma_rtts_absent(self.entries@, name@);
                }
                None
            },
        }
    }

    /// Gives a name a round trip, in place of the one it may have had.
    pub fn set(&mut self, name: &str, rtt_ns: i64)
        ensures
            final(self)@ == old(self)@.insert(name@, rtt_ns),
    {
        let entry: (String, i64) = (name.to_owned(), rtt_ns);
        match self.find(name) {
            Some(i) => {
                proof {
                    lemma_rtts_overwrite(self.entries@, i as int, entry);
                }
                self.entries.set(i, entry);
            },
            None => {
                self.entries.push(entry);
                assert(self.entries@.drop_last() =~= old(self).entries@);
            },
        }
    }
}

/// A bridge that traffic can be routed over.
#[derive(Debug)]
pub struct BridgeEntry {
    /// Stable name, used in logs and in the configuration.
    pub name: String,
    /// Where tunnel traffic is sent.
    pub endpoint: SocketAddr,
    pub bridge_x25519_pubkey_hex: String,
    pub license_token: String,
    /// Local UDP port for traffic that is redirected over this bridge.
    pub listen_port: u16,
    /// The bridge's round trips to AWS regions.
    pub region_rtt_ns: RttTable,
}

#[derive(Debug, Clone, Copy, PartialEq, Eq, Structural)]
pub enum Route {
    /// Not captured: the system's own route is used.
    Direct,
    /// Tunnelled over the bridge with this index.
    ViaBridge(usize),
}

/// A decision on a destination, and what it was made from.
#[derive(Debug, Clone, Copy, PartialEq, Eq, Structural)]
pub struct Decision {
    pub route: Route,
    pub decided_at: u64,
    /// The round trip of the direct path, if it is known.
    pub direct_rtt_ns: Option<i64>,
    /// The round trip over the best bridge, if one is known.
    pub via_bridge_rtt_ns: Option<i128>,
}

/// What a path over a bridge costs: the way to the bridge, and the bridge's way
/// to the region. It is unknown where either is.
pub open spec fn cost(
    bridge: BridgeEntry,
    pings: Map<Seq<char>, i64>,
    region: Option<Seq<char>>,
) -> Option<int> {
    match region {
        Some(r) => if pings.dom().contains(bridge.name@) && bridge.region_rtt_ns@.dom().contains(
            r,
        ) {
            Some(pings[bridge.name@] + bridge.region_rtt_ns@[r])
        } else {
            None
        },
        None => None,
    }
}

/// Whether bridge `i` is the one of least cost; of several, the first.
pub open spec fn is_cheapest(
    bridges: Seq<BridgeEntry>,
    pings: Map<Seq<char>, i64>,
    region: Option<Seq<char>>,
    i: int,
) -> bool {
    &&& 0 <= i < bridges.len()
    &&& cost(bridges[i], pings, region) matches Some(least) && forall|j: int|
        0 <= j < bridges.len() ==> (cost(#[trigger] bridges[j], pings, region) matches Some(other)
            ==> least < other || (least == other && i <= j))
}

/// The decision for a destination in this region.
pub open spec fn decision(
    bridges: Seq<BridgeEntry>,
    pings: Map<Seq<char>, i64>,
    region: Option<Seq<char>>,
    margin_ns: i64,
    direct_rtt_ns: Option<i64>,
    now: u64,
) -> Decision {
    if exists|i: int| is_cheapest(bridges, pings, region, i) {
        let i = choose|i: int| is_cheapest(bridges, pings, region, i);
        let via = cost(bridges[i], pings, region)->Some_0;
        let beats_direct = direct_rtt_ns matches Some(direct) ==> via + margin_ns < direct;
        Decision {
            route: if beats_direct {
                Route::ViaBridge(i as usize)
            } else {
                Route::Direct
            },
            decided_at: now,
            direct_rtt_ns,
            via_bridge_rtt_ns: Some(via as i128),
        }
    } else {
        Decision {
            route: Route::Direct,
            decided_at: now,
            direct_rtt_ns,
            via_bridge_rtt_ns: None,
        }
    }
}

/// Whether a decision on this address is still in force.
pub open spec fn in_force(cache: Map<IpAddr, Decision>, ip: IpAddr, now: u64, interval: u64) -> bool {
    cache.dom().contains(ip) && now < cache[ip].decided_at + interval
}

/// The route that is picked for an address, and the decisions that are kept
/// afterwards, where `fresh` is the decision that would be made anew.
pub open spec fn picked(
    cache: Map<IpAddr, Decision>,
    ip: IpAddr,
    fresh: Decision,
    now: u64,
    interval: u64,
) -> (Route, Map<IpAddr, Decision>) {
    if in_force(cache, ip, now, interval) {
        (cache[ip].route, cache)
    } else {
        (fresh.route, cache.insert(ip, fresh))
    }
}

/// The route picker: the bridges, what has been measured, and the decisions
/// that were made.
pub struct Router {
    bridges: Vec<BridgeEntry>,
    client_to_bridge: RttTable,
    aws: AwsLookup,
    cache: Table<IpAddr, Decision>,
    margin_ns: i64,
    reroute_interval_ns: u64,
}

impl Router {
    pub closed spec fn spec_bridges(self) -> Seq<BridgeEntry> {
        self.bridges@
    }

    /// The client's round trips to the bridges.
    pub closed spec fn pings(self) -> Map<Seq<char>, i64> {
        self.client_to_bridge@
    }

    pub closed spec fn ranges(self) -> Seq<OwnedRange> {
        self.aws.table()
    }

    pub closed spec fn cache(self) -> Map<IpAddr, Decision> {
        self.cache@
    }

    pub closed spec fn margin(self) -> i64 {
        self.margin_ns
    }

    pub closed spec fn interval(self) -> u64 {
        self.reroute_interval_ns
    }

    /// Every route that is kept leads over a bridge that exists.
    pub open spec fn routes_exist(self) -> bool {
        forall|ip: IpAddr| #[trigger]
            self.cache().dom().contains(ip) ==> (self.cache()[ip].route matches Route::ViaBridge(i)
                ==> i < self.spec_bridges().len())
    }

    pub closed spec fn wf(self) -> bool {
        self.aws.wf() && self.cache.wf() && self.routes_exist()
    }

    /// The decision that this router makes anew for an address.
    pub open spec fn fresh_decision(self, ip: IpAddr, direct_rtt_ns: Option<i64>, now: u64) -> Decision {
        decision(
            self.spec_bridges(),
            self.pings(),
            region_of(self.ranges(), ip),
            self.margin(),
            direct_rtt_ns,
            now,
        )
    }

    /// A router with the default margin.
    pub fn new(bridges: Vec<BridgeEntry>, aws: AwsLookup) -> (router: Router)
        requires
            aws.wf(),
        ensures
            router.wf(),
            router.spec_bridges() == bridges@,
            router.pings() == Map::<Seq<char>, i64>::empty(),
            router.ranges() == aws.table(),
            router.cache() == Map::<IpAddr, Decision>::empty(),
            router.margin() == DEFAULT_MARGIN_NS,
            router.interval() == REROUTE_INTERVAL_NS,
    {
        Router::with_margin(bridges, aws, DEFAULT_MARGIN_NS)
    }

    /// A router in which a bridge has to beat direct by `margin_ns`.
    pub fn with_margin(bridges: Vec<BridgeEntry>, aws: AwsLookup, margin_ns: i64) -> (router: Router)
        requires
            aws.wf(),
        ensures
            router.wf(),
            router.spec_bridges() == bridges@,
            router.pings() == Map::<Seq<char>, i64>::empty(),
            router.ranges() == aws.table(),
            router.cache() == Map::<IpAddr, Decision>::empty(),
            router.margin() == margin_ns,
            router.interval() == REROUTE_INTERVAL_NS,
    {
        Router {
            bridges,
            client_to_bridge: RttTable::new(),
            aws,
            cache: Table::new(),
            margin_ns,
            reroute_interval_ns: REROUTE_INTERVAL_NS,
        }
    }

    pub fn bridges(&self) -> (bridges: &[BridgeEntry])
        ensures
            bridges@ == self.spec_bridges(),
    {
        self.bridges.as_slice()
    }

    /// Records the measured round trip to a bridge.
    pub fn record_client_to_bridge(&mut self, bridge_name: &str, rtt_ns: i64)
        requires
            old(self).wf(),
        ensures
            final(self).wf(),
            final(self).pings() == old(self).pings().insert(bridge_name@, rtt_ns),
            final(self).spec_bridges() == old(self).spec_bridges(),
            final(self).ranges() == old(self).ranges(),
            final(self).cache() == old(self).cache(),
            final(self).margin() == old(self).margin(),
            final(self).interval() == old(self).interval(),
    {
        self.client_to_bridge.set(bridge_name, rtt_ns);
    }

    /// The measured round trip to a bridge.
    pub fn client_to_bridge(&self, bridge_name: &str) -> (rtt: Option<i64>)
        ensures
            rtt == (if self.pings().dom().contains(bridge_name@) {
                Some(self.pings()[bridge_name@])
            } else {
                None
            }),
    {
        self.client_to_bridge.get(bridge_name)
    }

    /// The region that owns an address.
    pub fn region_for(&self, ip: IpAddr) -> (r: Option<&str>)
        requires
            self.wf(),
        ensures
            region_text(r) == region_of(self.ranges(), ip),
    {
        self.aws.region_for(ip)
    }

    /// How many decisions are kept.
    pub fn cache_size(&self) -> (n: usize)
        requires
            self.wf(),
        ensures
            n == self.cache().len(),
    {
        self.cache.len()
    }

    /// The decision that is kept for an address, in force or not.
    pub fn cached_decision(&self, ip: IpAddr) -> (d: Option<Decision>)
        requires
            self.wf(),
        ensures
            d == (if self.cache().dom().contains(ip) {
                Some(self.cache()[ip])
            } else {
                None
            }),
    {
        match self.cache.get(&ip) {
            Some(d) => Some(*d),
            None => None,
        }
    }
}

impl Router {
    /// What a path over bridge `i` costs.
    fn cost_of(&self, i: usize, region: Option<&str>) -> (r: Option<i128>)
        requires
            i < self.spec_bridges().len(),
        ensures
            match r {
                Some(total) => cost(
                    self.spec_bridges()[i as int],
                    self.pings(),
                    region_text(region),
                ) == Some(total as int),
                None => cost(
                    self.spec_bridges()[i as int],
                    self.pings(),
                    region_text(region),
                ) is None,
            },
    {
        let to_bridge: i64 = match self.client_to_bridge.get(self.bridges[i].name.as_str()) {
            Some(rtt) => rtt,
            None => {
                return None;
            },
        };
        match region {
            Some(name) => match self.bridges[i].region_rtt_ns.get(name) {
                Some(from_bridge) => Some(to_bridge as i128 + from_bridge as i128),
                None => None,
            },
            None => None,
        }
    }

    /// The bridge of least cost, and its cost.
    fn cheapest(&self, region: Option<&str>) -> (r: Option<(usize, i128)>)
        ensures
            match r {
                Some((i, total)) => {
                    &&& is_cheapest(
                        self.spec_bridges(),
                        self.pings(),
                        region_text(region),
                        i as int,
                    )
                    &&& cost(self.spec_bridges()[i as int], self.pings(), region_text(region))
                        == Some(total as int)
                },
                None => forall|i: int|
                    !#[trigger] is_cheapest(
                        self.spec_bridges(),
                        self.pings(),
                        region_text(region),
                        i,
                    ),
            },
    {
        let ghost bridges = self.spec_bridges();
        let ghost pings = self.pings();
        let ghost place = region_text(region);
        let mut best: Option<(usize, i128)> = None;
        let mut i: usize = 0;
        while i < self.bridges.len()
            invariant
                i <= bridges.len(),
                bridges == self.spec_bridges(),
                pings == self.pings(),
                place == region_text(region),
                bridges == self.bridges@,
                match best {
                    Some((k, total)) => {
                        &&& k < i
                        &&& cost(bridges[k as int], pings, place) == Some(total as int)
                        &&& forall|j: int|
                            0 <= j < i ==> (cost(#[trigger] bridges[j], pings, place) matches Some(
                                other,
                            ) ==> total < other || (total == other && k <= j))
                    },
                    None => forall|j: int|
                        0 <= j < i ==> cost(#[trigger] bridges[j], pings, place) is None,
                },
            decreases bridges.len() - i,
        {
            if let Some(total) = self.cost_of(i, region) {
                let better = match best {
                    Some((_, least)) => total < least,
                    None => true,
                };
                if better {
                    best = Some((i, total));
                }
            }
            i += 1;
        }
        best
    }

    /// Makes a decision on an address from what has been measured.
    pub fn decide(&self, ip: IpAddr, direct_rtt_ns: Option<i64>, now: u64) -> (d: Decision)
        requires
            self.wf(),
        ensures
            d == self.fresh_decision(ip, direct_rtt_ns, now),
            d.route matches Route::ViaBridge(i) ==> i < self.spec_bridges().len(),
    {
        let region = self.region_for(ip);
        match self.cheapest(region) {
            Some((i, total)) => {
                proof {
                    let k = choose|k: int|
                        is_cheapest(self.spec_bridges(), self.pings(), region_text(region), k);
                    assert(is_cheapest(self.spec_bridges(), self.pings(), region_text(region), k));
                    assert(cost(self.spec_bridges()[k], self.pings(), region_text(region)) is Some);
                    assert(k == i);
                }
                let beats_direct = match direct_rtt_ns {
                    Some(direct) => total + (self.margin_ns as i128) < direct as i128,
                    None => true,
                };
                Decision {
                    route: if beats_direct {
                        Route::ViaBridge(i)
                    } else {
                        Route::Direct
                    },
                    decided_at: now,
                    direct_rtt_ns,
                    via_bridge_rtt_ns: Some(total),
                }
            },
            None => Decision {
                route: Route::Direct,
                decided_at: now,
                direct_rtt_ns,
                via_bridge_rtt_ns: None,
            },
        }
    }

    /// Picks a route for a destination: the one decided on before, while that
    /// decision is in force, or else a new one.
    ///
    /// `direct_rtt_ns` is the client's round trip to the destination; `None`
    /// stands for one that is not known, which every bridge beats.
    pub fn pick(&mut self, dest: SocketAddr, direct_rtt_ns: Option<i64>, now: u64) -> (route: Route)
        requires
            old(self).wf(),
        ensures
            final(self).wf(),
            route matches Route::ViaBridge(i) ==> i < old(self).spec_bridges().len(),
            (route, final(self).cache()) == picked(
                old(self).cache(),
                dest.ip,
                old(self).fresh_decision(dest.ip, direct_rtt_ns, now),
                now,
                old(self).interval(),
            ),
            final(self).spec_bridges() == old(self).spec_bridges(),
            final(self).pings() == old(self).pings(),
            final(self).ranges() == old(self).ranges(),
            final(self).margin() == old(self).margin(),
            final(self).interval() == old(self).interval(),
    {
        if let Some(d) = self.cache.get(&dest.ip) {
            if (now as u128) < d.decided_at as u128 + self.reroute_interval_ns as u128 {
                return d.route;
            }
        }
        let d = self.decide(dest.ip, direct_rtt_ns, now);
        self.cache.insert(dest.ip, d);
        d.route
    }
}

/// A route over a bridge is taken only where no bridge costs less, and the
/// bridge beats a known direct path by more than the margin.
pub proof fn bridge_only_if_it_beats_direct(
    bridges: Seq<BridgeEntry>,
    pings: Map<Seq<char>, i64>,
    region: Option<Seq<char>>,
    margin_ns: i64,
    direct_rtt_ns: Option<i64>,
    now: u64,
    i: usize,
)
    requires
        bridges.len() <= usize::MAX,
        decision(bridges, pings, region, margin_ns, direct_rtt_ns, now).route == Route::ViaBridge(
            i,
        ),
    ensures
        is_cheapest(bridges, pings, region, i as int),
        direct_rtt_ns matches Some(direct) ==> cost(bridges[i as int], pings, region)->Some_0
            + margin_ns < direct,
{
    let k = choose|k: int| is_cheapest(bridges, pings, region, k);
    assert(is_cheapest(bridges, pings, region, k));
}

/// Direct is taken, without a tunnel, wherever no bridge beats a known direct
/// path by more than the margin.
pub proof fn ties_go_to_direct(
    bridges: Seq<BridgeEntry>,
    pings: Map<Seq<char>, i64>,
    region: Option<Seq<char>>,
    margin_ns: i64,
    direct_rtt_ns: i64,
    now: u64,
)
    requires
        forall|i: int|
            0 <= i < bridges.len() ==> (cost(#[trigger] bridges[i], pings, region) matches Some(via)
                ==> via + margin_ns >= direct_rtt_ns),
    ensures
        decision(bridges, pings, region, margin_ns, Some(direct_rtt_ns), now).route
            == Route::Direct,
{
    if exists|k: int| is_cheapest(bridges, pings, region, k) {
        let k = choose|k: int| is_cheapest(bridges, pings, region, k);
        assert(is_cheapest(bridges, pings, region, k));
        assert(cost(bridges[k], pings, region) is Some);
    }
}

/// A bridge is taken wherever one beats a known direct path by more than the
/// margin; where the direct path is not known, wherever the way over one is.
pub proof fn bridge_that_beats_direct_is_taken(
    bridges: Seq<BridgeEntry>,
    pings: Map<Seq<char>, i64>,
    region: Option<Seq<char>>,
    margin_ns: i64,
    direct_rtt_ns: Option<i64>,
    now: u64,
    i: int,
)
    requires
        0 <= i < bridges.len(),
        cost(bridges[i], pings, region) matches Some(via) && (direct_rtt_ns matches Some(direct)
            ==> via + margin_ns < direct),
    ensures
        decision(bridges, pings, region, margin_ns, direct_rtt_ns, now).route is ViaBridge,
{
    let k = lemma_cheapest_exists(bridges, pings, region, i);
    assert(is_cheapest(bridges, pings, region, k));
    let m = choose|m: int| is_cheapest(bridges, pings, region, m);
    assert(is_cheapest(bridges, pings, region, m));
    assert(cost(bridges[i], pings, region) is Some);
}

proof fn lemma_cheapest_exists(
    bridges: Seq<BridgeEntry>,
    pings: Map<Seq<char>, i64>,
    region: Option<Seq<char>>,
    i: int,
) -> (k: int)
    requires
        0 <= i < bridges.len(),
        cost(bridges[i], pings, region) is Some,
    ensures
        is_cheapest(bridges, pings, region, k),
    decreases bridges.len(),
{
    let n = bridges.len() - 1;
    let front = bridges.drop_last();
    assert(forall|j: int| 0 <= j < n ==> front[j] == bridges[j]);
    if exists|j: int| 0 <= j < n && cost(#[trigger] front[j], pings, region) is Some {
        let j = choose|j: int| 0 <= j < n && cost(#[trigger] front[j], pings, region) is Some;
        let k = lemma_cheapest_exists(front, pings, region, j);
        let least = cost(bridges[k], pings, region)->Some_0;
        let at_n = cost(bridges[n], pings, region);
        let m = if at_n is Some && at_n->Some_0 < least {
            n
        } else {
            k
        };
        assert forall|j: int| 0 <= j < bridges.len() implies (cost(
            #[trigger] bridges[j],
            pings,
            region,
        ) matches Some(other) ==> cost(bridges[m], pings, region)->Some_0 < other || (cost(
            bridges[m],
            pings,
            region,
        )->Some_0 == other && m <= j)) by {
            if j < n {
                assert(front[j] == bridges[j]);
            }
        }
        m
    } else {
        assert forall|j: int| 0 <= j < n implies cost(#[trigger] bridges[j], pings, region)
            is None by {
            assert(front[j] == bridges[j]);
        }
        n
    }
}

/// Where the region of a destination is not known, no bridge is taken.
pub proof fn unknown_region_goes_direct(
    bridges: Seq<BridgeEntry>,
    pings: Map<Seq<char>, i64>,
    margin_ns: i64,
    direct_rtt_ns: Option<i64>,
    now: u64,
)
    ensures
        decision(bridges, pings, None, margin_ns, direct_rtt_ns, now).route == Route::Direct,
{
    assert forall|k: int| !is_cheapest(bridges, pings, None, k) by {}
}

/// Every route that is picked leads over a bridge that exists.
pub proof fn picked_bridge_exists(router: Router, ip: IpAddr, direct_rtt_ns: Option<i64>, now: u64)
    requires
        router.wf(),
    ensures
        picked(
            router.cache(),
            ip,
            router.fresh_decision(ip, direct_rtt_ns, now),
            now,
            router.interval(),
        ).0 matches Route::ViaBridge(i) ==> i < router.spec_bridges().len(),
{
    let bridges = router.spec_bridges();
    let region = region_of(router.ranges(), ip);
    assert(bridges.len() == router.bridges.len());
    if exists|k: int| is_cheapest(bridges, router.pings(), region, k) {
        let k = choose|k: int| is_cheapest(bridges, router.pings(), region, k);
        assert(is_cheapest(bridges, router.pings(), region, k));
    }
}

/// Until the decision that was kept for an address is older than the interval,
/// picking again gives the same route and changes nothing, whatever has been
/// measured meanwhile.
pub proof fn picks_repeat_within_interval(
    cache: Map<IpAddr, Decision>,
    ip: IpAddr,
    first: Decision,
    now: u64,
    second: Decision,
    later: u64,
    interval: u64,
)
    requires
        later < picked(cache, ip, first, now, interval).1[ip].decided_at + interval,
    ensures
        ({
            let (route, kept) = picked(cache, ip, first, now, interval);
            picked(kept, ip, second, later, interval) == (route, kept)
        }),
{
}

/// Once the decision that is kept for an address is as old as the interval,
/// whatever its route, it is made anew: the fresh decision gives the route and
/// takes the place of the old one. The same holds where none is kept.
pub proof fn old_decisions_are_made_anew(
    cache: Map<IpAddr, Decision>,
    ip: IpAddr,
    fresh: Decision,
    now: u64,
    interval: u64,
)
    requires
        cache.dom().contains(ip) ==> now >= cache[ip].decided_at + interval,
    ensures
        picked(cache, ip, fresh, now, interval) == (fresh.route, cache.insert(ip, fresh)),
{
}

/// A pick decides on its own address alone: what is kept for another is neither
/// asked nor changed.
pub proof fn picks_do_not_interfere(
    cache: Map<IpAddr, Decision>,
    ip: IpAddr,
    fresh: Decision,
    now: u64,
    interval: u64,
    other: IpAddr,
    d: Decision,
)
    requires
        other != ip,
    ensures
        ({
            let kept = picked(cache, ip, fresh, now, interval).1;
            &&& kept.dom().contains(other) == cache.dom().contains(other)
            &&& kept[other] == cache[other]
            &&& kept.dom().contains(ip)
            &&& picked(cache.insert(other, d), ip, fresh, now, interval).0 == picked(
                cache,
                ip,
                fresh,
                now,
                interval,
            ).0
        }),
{
}

/// A path over a bridge costs the sum of its two ways, where both are known, and
/// is unknown where either is not.
pub proof fn path_costs_both_ways(
    bridge: BridgeEntry,
    pings: Map<Seq<char>, i64>,
    region: Seq<char>,
)
    ensures
        pings.dom().contains(bridge.name@) && bridge.region_rtt_ns@.dom().contains(region) ==> cost(
            bridge,
            pings,
            Some(region),
        ) == Some(pings[bridge.name@] + bridge.region_rtt_ns@[region]),
        !pings.dom().contains(bridge.name@) || !bridge.region_rtt_ns@.dom().contains(region)
            ==> cost(bridge, pings, Some(region)) is None,
        cost(bridge, pings, None) is None,
{
}

/// A decision goes by the sums of the two ways over each bridge: over the first
/// bridge of the least sum, if the direct path is not known or longer by more
/// than the margin, and else directly. It tells the time, the direct path and
/// the least sum.
pub proof fn decision_goes_by_least_sum(
    bridges: Seq<BridgeEntry>,
    pings: Map<Seq<char>, i64>,
    region: Seq<char>,
    margin_ns: i64,
    direct_rtt_ns: Option<i64>,
    now: u64,
    i: int,
)
    requires
        bridges.len() <= usize::MAX,
        0 <= i < bridges.len(),
        pings.dom().contains(bridges[i].name@),
        bridges[i].region_rtt_ns@.dom().contains(region),
    ensures
        ({
            let d = decision(bridges, pings, Some(region), margin_ns, direct_rtt_ns, now);
            let sum = pings[bridges[i].name@] + bridges[i].region_rtt_ns@[region];
            &&& d.decided_at == now
            &&& d.direct_rtt_ns == direct_rtt_ns
            &&& d.via_bridge_rtt_ns matches Some(least) && {
                &&& least <= sum
                &&& exists|k: int|
                    {
                        &&& 0 <= k < bridges.len()
                        &&& pings.dom().contains((#[trigger] bridges[k]).name@)
                        &&& bridges[k].region_rtt_ns@.dom().contains(region)
                        &&& least == pings[bridges[k].name@] + bridges[k].region_rtt_ns@[region]
                        &&& least == sum ==> k <= i
                        &&& d.route == (if direct_rtt_ns matches Some(direct) ==> least + margin_ns
                            < direct {
                            Route::ViaBridge(k as usize)
                        } else {
                            Route::Direct
                        })
                    }
            }
        }),
{
    let place = Some(region);
    assert(cost(bridges[i], pings, place) is Some);
    let m = lemma_cheapest_exists(bridges, pings, place, i);
    assert(is_cheapest(bridges, pings, place, m));
    let k = choose|k: int| is_cheapest(bridges, pings, place, k);
    assert(is_cheapest(bridges, pings, place, k));
    let least = cost(bridges[k], pings, place)->Some_0;
    assert(pings.dom().contains(bridges[k].name@));
    assert(least == pings[bridges[k].name@] + bridges[k].region_rtt_ns@[region]);
    assert(least as i128 as int == least);
}

/// Where no bridge has both ways known, or no region is, the decision is direct
/// and tells of no path over a bridge.
pub proof fn without_known_ways_goes_direct(
    bridges: Seq<BridgeEntry>,
    pings: Map<Seq<char>, i64>,
    region: Option<Seq<char>>,
    margin_ns: i64,
    direct_rtt_ns: Option<i64>,
    now: u64,
)
    requires
        region matches Some(r) ==> forall|i: int|
            0 <= i < bridges.len() ==> !(pings.dom().contains((#[trigger] bridges[i]).name@)
                && bridges[i].region_rtt_ns@.dom().contains(r)),
    ensures
        decision(bridges, pings, region, margin_ns, direct_rtt_ns, now) == (Decision {
            route: Route::Direct,
            decided_at: now,
            direct_rtt_ns,
            via_bridge_rtt_ns: None,
        }),
{
    assert forall|k: int| !is_cheapest(bridges, pings, region, k) by {
        if 0 <= k < bridges.len() {
            assert(cost(bridges[k], pings, region) is None);
        }
    }
}

/// A router decides by its own bridges, measurements and margin, on the region
/// that its ranges give the address; and the defaults are 2 ms and 60 s.
pub proof fn router_decides_by_its_state(router: Router, ip: IpAddr, direct_rtt_ns: Option<i64>, now: u64)
    ensures
        router.fresh_decision(ip, direct_rtt_ns, now) == decision(
            router.spec_bridges(),
            router.pings(),
            region_of(router.ranges(), ip),
            router.margin(),
            direct_rtt_ns,
            now,
        ),
        DEFAULT_MARGIN_NS == 2 * 1_000_000,
        REROUTE_INTERVAL_NS == 60 * 1_000_000_000,
{
}

/// Until then the decision that is kept gives the route, whatever would be
/// decided now, and stays.
pub proof fn kept_decision_gives_the_route(
    cache: Map<IpAddr, Decision>,
    ip: IpAddr,
    fresh: Decision,
    now: u64,
    interval: u64,
)
    requires
        cache.dom().contains(ip),
        now < cache[ip].decided_at + interval,
    ensures
        picked(cache, ip, fresh, now, interval) == (cache[ip].route, cache),
{
}

} // verus!
