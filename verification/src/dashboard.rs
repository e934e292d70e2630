//! What the live dashboard shows: its texts, and the recent decisions.

use vstd::prelude::*;

use crate::addr::SocketAddr;
use crate::router::{Decision, Route, Router};
use crate::text::{dec_text, push_dec};

verus! {

use crate::aws_regions::region_of;
use crate::router::BridgeEntry;
use crate::text::dec;

/// How good a round trip is.
#[derive(Debug, Clone, Copy, PartialEq, Eq, Structural)]
pub enum RttGrade {
    /// Below 30 ms.
    Good,
    /// Below 60 ms.
    Fair,
    Poor,
    /// Not measured.
    Unknown,
}

/// The grade of a round trip.
pub open spec fn grade_of(rtt_ns: Option<i64>) -> RttGrade {
    match rtt_ns {
        None => RttGrade::Unknown,
        Some(r) => if r < 30_000_000 {
            RttGrade::Good
        } else if r < 60_000_000 {
            RttGrade::Fair
        } else {
            RttGrade::Poor
        },
    }
}

/// Grades a round trip.
pub fn rtt_grade(rtt_ns: Option<i64>) -> (grade: RttGrade)
    ensures
        grade == grade_of(rtt_ns),
{
    match rtt_ns {
        None => RttGrade::Unknown,
        Some(r) => if r < 30_000_000 {
            RttGrade::Good
        } else if r < 60_000_000 {
            RttGrade::Fair
        } else {
            RttGrade::Poor
        },
    }
}

/// How long ago something was: in seconds below a minute, in minutes below an
/// hour, and else in hours.
pub open spec fn age(secs: nat) -> Seq<char> {
    if secs < 60 {
        dec(secs) + "s"@
    } else if secs < 3600 {
        dec(secs / 60) + "m"@
    } else {
        dec(secs / 3600) + "h"@
    }
}

/// How long ago something was.
pub fn age_text(secs: u64) -> (text: String)
    ensures
        text@ == age(secs as nat),
{
    if secs < 60 {
        dec_text(secs as u128).concat("s")
    } else if secs < 3600 {
        dec_text((secs / 60) as u128).concat("m")
    } else {
        dec_text((secs / 3600) as u128).concat("h")
    }
}

/// A magnitude in nanoseconds as tenths of a millisecond, rounded to the
/// nearest and, halfway, to the even.
pub open spec fn tenths(ns: nat) -> nat {
    let down = ns / 100_000;
    let rest = ns % 100_000;
    if rest > 50_000 || (rest == 50_000 && down % 2 == 1) {
        down + 1
    } else {
        down
    }
}

/// A text with spaces before it, up to five characters.
pub open spec fn padded(text: Seq<char>) -> Seq<char> {
    if text.len() >= 5 {
        text
    } else {
        Seq::new((5 - text.len()) as nat, |i: int| ' ') + text
    }
}

/// A round trip in milliseconds with one decimal, at least five characters
/// wide.
pub open spec fn millis(ns: int) -> Seq<char> {
    let t = tenths(if ns < 0 {
        (-ns) as nat
    } else {
        ns as nat
    });
    padded((if ns < 0 {
        "-"@
    } else {
        ""@
    }) + dec(t / 10) + "."@ + dec(t % 10))
}

/// A round trip in milliseconds.
fn millis_text(ns: i128) -> (text: String)
    ensures
        text@ == millis(ns as int),
{
    let mut number: String = if ns < 0 {
        "-".to_owned()
    } else {
        "".to_owned()
    };
    let size: u128 = if ns < 0 {
        (-(ns + 1)) as u128 + 1
    } else {
        ns as u128
    };
    let down: u128 = size / 100_000;
    let rest: u128 = size % 100_000;
    let t: u128 = if rest > 50_000 || (rest == 50_000 && down % 2 == 1) {
        down + 1
    } else {
        down
    };
    push_dec(&mut number, t / 10);
    number.append(".");
    push_dec(&mut number, t % 10);
    let ghost plain = number@;
    let mut text = String::new();
    let mut n: usize = number.as_str().unicode_len();
    let ghost full = plain.len();
    while n < 5
        invariant
            full <= n,
            full <= 5 ==> n <= 5,
            full > 5 ==> n == full,
            text@ == Seq::new((n - full) as nat, |i: int| ' '),
        decreases 5 - n,
    {
        proof {
            reveal_strlit(" ");
        }
        text.append(" ");
        assert(text@ =~= Seq::new((n + 1 - full) as nat, |i: int| ' '));
        n += 1;
    }
    text.append(number.as_str());
    assert(text@ =~= millis(ns as int));
    text
}

/// The round trip to a bridge, as it is shown.
pub fn bridge_rtt_text(rtt_ns: Option<i64>) -> (text: String)
    ensures
        text@ == (match rtt_ns {
            Some(r) => millis(r as int) + " ms"@,
            None => "  --   "@,
        }),
{
    match rtt_ns {
        Some(r) => millis_text(r as i128).concat(" ms"),
        None => "  --   ".to_owned(),
    }
}

/// The cells of a row about a bridge.
#[derive(Debug)]
pub struct BridgeRow {
    pub name: String,
    pub endpoint: String,
    pub rtt: String,
    pub grade: RttGrade,
    pub listen: String,
}

/// The row about a bridge, whose endpoint is given as text.
pub fn bridge_row(name: &str, endpoint: &str, rtt_ns: Option<i64>, listen_port: u16) -> (row:
    BridgeRow)
    ensures
        row.name@ == name@,
        row.endpoint@ == endpoint@,
        row.rtt@ == (match rtt_ns {
            Some(r) => millis(r as int) + " ms"@,
            None => "  --   "@,
        }),
        row.grade == grade_of(rtt_ns),
        row.listen@ == ":"@ + dec(listen_port as nat),
{
    let mut listen: String = ":".to_owned();
    push_dec(&mut listen, listen_port as u128);
    BridgeRow {
        name: name.to_owned(),
        endpoint: endpoint.to_owned(),
        rtt: bridge_rtt_text(rtt_ns),
        grade: rtt_grade(rtt_ns),
        listen,
    }
}

/// The round trip of a path, as it is shown.
pub fn path_rtt_text(rtt_ns: Option<i128>) -> (text: String)
    ensures
        text@ == (match rtt_ns {
            Some(r) => millis(r as int) + "ms"@,
            None => "  --  "@,
        }),
{
    match rtt_ns {
        Some(r) => millis_text(r).concat("ms"),
        None => "  --  ".to_owned(),
    }
}

/// The region of a destination, as it is shown.
pub fn region_label(region: Option<&str>) -> (text: String)
    ensures
        text@ == (match region {
            Some(name) => name@,
            None => "-"@,
        }),
{
    match region {
        Some(name) => name.to_owned(),
        None => "-".to_owned(),
    }
}

/// A route, as it is shown: a bridge's is an arrow and the bridge's name, where
/// that is known.
pub fn route_text(route: Route, bridge_name: Option<&str>) -> (text: String)
    ensures
        text@ == (match route {
            Route::Direct => "direct"@,
            Route::ViaBridge(_) => match bridge_name {
                Some(name) => "→ "@ + name@,
                None => "→ "@,
            },
        }),
{
    match route {
        Route::Direct => "direct".to_owned(),
        Route::ViaBridge(_) => match bridge_name {
            Some(name) => "→ ".to_owned().concat(name),
            None => "→ ".to_owned(),
        },
    }
}

/// The title over the decisions.
pub fn decisions_title(cached: usize, recent: usize) -> (text: String)
    ensures
        text@ == " route decisions ("@ + dec(cached as nat) + " cached, "@ + dec(recent as nat)
            + " recent) "@,
{
    let mut text: String = " route decisions (".to_owned();
    push_dec(&mut text, cached as u128);
    text.append(" cached, ");
    push_dec(&mut text, recent as u128);
    text.append(" recent) ");
    text
}

/// The cells of a row about a decision.
#[derive(Debug)]
pub struct DecisionRow {
    pub when: String,
    pub dest: String,
    pub region: String,
    pub direct: String,
    pub via: String,
    pub route: String,
}

/// The row about a decision that is `age_secs` old.
pub fn decision_row(
    age_secs: u64,
    dest: &str,
    region: Option<&str>,
    direct_rtt_ns: Option<i64>,
    via_bridge_rtt_ns: Option<i128>,
    route: Route,
    bridge_name: Option<&str>,
) -> (row: DecisionRow)
    ensures
        row.when@ == age(age_secs as nat),
        row.dest@ == dest@,
        row.region@ == (match region {
            Some(name) => name@,
            None => "-"@,
        }),
        row.direct@ == (match direct_rtt_ns {
            Some(r) => millis(r as int) + "ms"@,
            None => "  --  "@,
        }),
        row.via@ == (match via_bridge_rtt_ns {
            Some(r) => millis(r as int) + "ms"@,
            None => "  --  "@,
        }),
        row.route@ == (match route {
            Route::Direct => "direct"@,
            Route::ViaBridge(_) => match bridge_name {
                Some(name) => "→ "@ + name@,
                None => "→ "@,
            },
        }),
{
    let direct: Option<i128> = match direct_rtt_ns {
        Some(r) => Some(r as i128),
        None => None,
    };
    DecisionRow {
        when: age_text(age_secs),
        dest: dest.to_owned(),
        region: region_label(region),
        direct: path_rtt_text(direct),
        via: path_rtt_text(via_bridge_rtt_ns),
        route: route_text(route, bridge_name),
    }
}

/// How many decisions are remembered.
pub const HISTORY_LEN: usize = 256;

/// A decision that was made on a destination.
#[derive(Debug)]
pub struct LoggedDecision {
    pub dest: SocketAddr,
    pub region: Option<String>,
    pub decision: Decision,
    /// The name of the bridge, where the route leads over one.
    pub bridge_name: Option<String>,
}

/// The text that there may be.
pub open spec fn text_of(text: Option<String>) -> Option<Seq<char>> {
    match text {
        Some(t) => Some(t@),
        None => None,
    }
}

/// The name of the bridge that a route leads over.
pub open spec fn name_of_route(bridges: Seq<BridgeEntry>, route: Route) -> Option<Seq<char>> {
    match route {
        Route::ViaBridge(i) => if i < bridges.len() {
            Some(bridges[i as int].name@)
        } else {
            None
        },
        Route::Direct => None,
    }
}

impl LoggedDecision {
    /// Whether this is what a router decided on a destination.
    pub open spec fn tells(self, router: Router, dest: SocketAddr) -> bool {
        &&& self.dest == dest
        &&& text_of(self.region) == region_of(router.ranges(), dest.ip)
        &&& self.decision == router.cache()[dest.ip]
        &&& text_of(self.bridge_name) == name_of_route(
            router.spec_bridges(),
            router.cache()[dest.ip].route,
        )
    }
}

/// The last decisions, the newest first.
#[derive(Debug)]
pub struct DecisionHistory {
    entries: Vec<LoggedDecision>,
}

impl View for DecisionHistory {
    type V = Seq<LoggedDecision>;

    closed spec fn view(&self) -> Seq<LoggedDecision> {
        self.entries@
    }
}

impl DecisionHistory {
    pub fn new() -> (history: DecisionHistory)
        ensures
            history@ == Seq::<LoggedDecision>::empty(),
    {
        DecisionHistory { entries: Vec::new() }
    }

    /// Notes the decision on a destination, if it was made at this time. The
    /// oldest one is forgotten where there are too many.
    pub fn note(&mut self, router: &Router, dest: SocketAddr, now: u64)
        requires
            router.wf(),
        ensures
            if router.cache().dom().contains(dest.ip) && router.cache()[dest.ip].decided_at == now {
                &&& final(self)@.len() > 0
                &&& final(self)@[0].tells(*router, dest)
                &&& final(self)@ == (seq![final(self)@[0]] + old(self)@).take(
                    if old(self)@.len() < HISTORY_LEN {
                        old(self)@.len() as int + 1
                    } else {
                        HISTORY_LEN as int
                    },
                )
            } else {
                final(self)@ == old(self)@
            },
    {
        let decision = match router.cached_decision(dest.ip) {
            Some(decision) => decision,
            None => {
                return;
            },
        };
        if decision.decided_at != now {
            return;
        }
        let region: Option<String> = match router.region_for(dest.ip) {
            Some(region) => Some(region.to_owned()),
            None => None,
        };
        let bridges = router.bridges();
        let bridge_name: Option<String> = match decision.route {
            Route::ViaBridge(i) => if i < bridges.len() {
                Some(bridges[i].name.clone())
            } else {
                None
            },
            Route::Direct => None,
        };
        self.entries.truncate(HISTORY_LEN - 1);
        self.entries.insert(0, LoggedDecision { dest, region, decision, bridge_name });
    }

    /// The last `n` decisions, or as many as are remembered.
    pub fn recent(&self, n: usize) -> (list: &[LoggedDecision])
        ensures
            list@ == self@.take(
                if n < self@.len() {
                    n as int
                } else {
                    self@.len() as int
                },
            ),
    {
        let n: usize = if n < self.entries.len() {
            n
        } else {
            self.entries.len()
        };
        let list: &[LoggedDecision] = &self.entries.as_slice()[0..n];
        assert(list@ =~= self@.take(n as int));
        list
    }
}

// ---------- What the texts tell ----------

/// A round trip is good below 30 ms, fair below 60 ms, and else poor.
pub proof fn grades_go_by_round_trip(rtt_ns: i64)
    ensures
        grade_of(Some(rtt_ns)) == RttGrade::Good <==> rtt_ns < 30 * 1_000_000,
        grade_of(Some(rtt_ns)) == RttGrade::Poor <==> rtt_ns >= 60 * 1_000_000,
        grade_of(Some(rtt_ns)) != RttGrade::Unknown,
        grade_of(None) == RttGrade::Unknown,
{
}

/// An age is told in its largest whole unit: seconds, minutes or hours.
pub proof fn ages_are_told_in_whole_units(n: nat, rest: nat)
    ensures
        n < 60 ==> age(n) == dec(n) + "s"@,
        1 <= n < 60 && rest < 60 ==> age(60 * n + rest) == dec(n) + "m"@,
        1 <= n && rest < 3600 ==> age(3600 * n + rest) == dec(n) + "h"@,
{
}

/// Tenths of a millisecond are the nearest to the nanoseconds, and halfway between
/// two the even one.
pub proof fn tenths_are_nearest(ns: nat)
    ensures
        -100_000 <= 2 * (tenths(ns) * 100_000 - ns) <= 100_000,
        (2 * (tenths(ns) * 100_000 - ns) == 100_000 || 2 * (ns - tenths(ns) * 100_000) == 100_000)
            ==> tenths(ns) % 2 == 0,
{
}

/// A round trip is shown with its sign, in milliseconds with one decimal that is
/// the nearest, and with spaces before it up to five characters.
pub proof fn round_trips_are_shown_to_a_tenth(ns: nat, t: nat, i: int, text: Seq<char>)
    requires
        -100_000 <= 2 * (t * 100_000 - ns) <= 100_000,
        2 * (t * 100_000 - ns) == 100_000 || 2 * (ns - t * 100_000) == 100_000 ==> t % 2 == 0,
    ensures
        millis(ns as int) == padded(dec(t / 10) + "."@ + dec(t % 10)),
        ns > 0 ==> millis(-(ns as int)) == padded("-"@ + dec(t / 10) + "."@ + dec(t % 10)),
        padded(text).len() == (if text.len() < 5 {
            5
        } else {
            text.len()
        }),
        padded(text).skip(padded(text).len() - text.len()) == text,
        0 <= i < padded(text).len() - text.len() ==> padded(text)[i] == ' ',
{
    tenths_are_nearest(ns);
    assert(tenths(ns) == t);
    reveal_strlit("");
    assert(""@ + dec(t / 10) + "."@ + dec(t % 10) =~= dec(t / 10) + "."@ + dec(t % 10));
    assert(padded(text).skip(padded(text).len() - text.len()) =~= text);
}

/// What is remembered of a decision is the destination, its region, the decision
/// itself and the name of the bridge it leads over; 256 are remembered.
pub proof fn remembered_decisions_tell_all(entry: LoggedDecision, router: Router, dest: SocketAddr)
    requires
        entry.tells(router, dest),
    ensures
        entry.dest == dest,
        entry.decision == router.cache()[dest.ip],
        entry.region is Some <==> region_of(router.ranges(), dest.ip) is Some,
        entry.region matches Some(region) ==> region_of(router.ranges(), dest.ip) == Some(region@),
        entry.decision.route is Direct ==> entry.bridge_name is None,
        entry.decision.route matches Route::ViaBridge(i) ==> (i < router.spec_bridges().len() ==> (
        entry.bridge_name matches Some(name) && name@ == router.spec_bridges()[i as int].name@)),
        HISTORY_LEN == 256,
{
}

} // verus!
