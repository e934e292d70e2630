//! Receiving frames, each once.
//!
//! A frame may come more than once: copies are sent over alternate paths, and
//! anybody can send a frame again. A receiver keeps the connection id and sequence
//! number of the frames it has taken in a session, and refuses those it has taken
//! already, before it decrypts them.

use vstd::prelude::*;

use crate::protocol::{decrypt_frame, read_frame_front, AeadKey, Header, ProtocolError};
use crate::table::Table;

verus! {

use crate::protocol::{frame_front, opened_frame};

/// A set of sequence numbers, held as ranges. Neighbouring ranges are joined, so
/// that numbers that come in order take one range.
#[derive(Debug)]
pub struct SeenSequences {
    /// The first and last number of each range.
    ranges: Vec<(u64, u64)>,
}

/// Whether a range holds a sequence number.
spec fn within(range: (u64, u64), sequence: u64) -> bool {
    range.0 <= sequence <= range.1
}

/// The sequence numbers that ranges hold.
spec fn numbers(ranges: Seq<(u64, u64)>) -> Set<u64> {
    Set::new(|s: u64| exists|i: int| 0 <= i < ranges.len() && within(#[trigger] ranges[i], s))
}

/// No range is empty; they are disjoint, and in ascending order.
spec fn ascending(ranges: Seq<(u64, u64)>) -> bool {
    &&& forall|i: int| 0 <= i < ranges.len() ==> (#[trigger] ranges[i]).0 <= ranges[i].1
    &&& forall|i: int, j: int|
        #![trigger ranges[i], ranges[j]]
        0 <= i < j < ranges.len() ==> ranges[i].1 < ranges[j].0
}

/// Inserting a number as a range of its own adds the number.
proof fn lemma_inserted(ranges: Seq<(u64, u64)>, at: int, sequence: u64)
    requires
        ascending(ranges),
        0 <= at <= ranges.len(),
        forall|i: int| 0 <= i < at ==> (#[trigger] ranges[i]).1 < sequence,
        forall|i: int| at <= i < ranges.len() ==> (#[trigger] ranges[i]).0 > sequence,
    ensures
        ascending(ranges.insert(at, (sequence, sequence))),
        numbers(ranges.insert(at, (sequence, sequence))) == numbers(ranges).insert(sequence),
{
    let is = ranges.insert(at, (sequence, sequence));
    assert forall|i: int, j: int|
        #![trigger is[i], is[j]]
        0 <= i < j < is.len() implies is[i].1 < is[j].0 by {
        if i != at {
            assert(is[i] == ranges[if i < at { i } else { i - 1 }]);
        }
        if j != at {
            assert(is[j] == ranges[if j < at { j } else { j - 1 }]);
        }
    }
    assert forall|i: int| 0 <= i < is.len() implies (#[trigger] is[i]).0 <= is[i].1 by {
        if i != at {
            assert(is[i] == ranges[if i < at { i } else { i - 1 }]);
        }
    }
    assert forall|s: u64| #[trigger] numbers(is).contains(s) == numbers(ranges).insert(
        sequence,
    ).contains(s) by {
        if numbers(is).contains(s) {
            let i = choose|i: int| 0 <= i < is.len() && within(#[trigger] is[i], s);
            if i != at {
                assert(within(ranges[if i < at { i } else { i - 1 }], s));
            }
        }
        if numbers(ranges).contains(s) {
            let i = choose|i: int| 0 <= i < ranges.len() && within(#[trigger] ranges[i], s);
            assert(within(is[if i < at { i } else { i + 1 }], s));
        }
        assert(within(is[at], sequence));
    }
    assert(numbers(is) =~= numbers(ranges).insert(sequence));
}

/// The ranges, with those at `at` and behind it joined.
spec fn joined(ranges: Seq<(u64, u64)>, at: int) -> Seq<(u64, u64)> {
    ranges.remove(at + 1).update(at, (ranges[at].0, ranges[at + 1].1))
}

/// Joining two ranges without a gap between them changes no number.
proof fn lemma_joined(ranges: Seq<(u64, u64)>, at: int)
    requires
        ascending(ranges),
        0 <= at < ranges.len() - 1,
        ranges[at].1 + 1 == ranges[at + 1].0,
    ensures
        ascending(joined(ranges, at)),
        numbers(joined(ranges, at)) == numbers(ranges),
{
    let is = joined(ranges, at);
    assert(is[at] == (ranges[at].0, ranges[at + 1].1));
    assert(forall|i: int| 0 <= i < at ==> is[i] == ranges[i]);
    assert(forall|i: int| at < i < is.len() ==> is[i] == ranges[i + 1]);
    assert forall|s: u64| #[trigger] numbers(is).contains(s) == numbers(ranges).contains(s) by {
        if numbers(is).contains(s) {
            let i = choose|i: int| 0 <= i < is.len() && within(#[trigger] is[i], s);
            if i < at {
                assert(within(ranges[i], s));
            } else if i > at {
                assert(within(ranges[i + 1], s));
            } else {
                assert(within(ranges[at], s) || within(ranges[at + 1], s));
            }
        }
        if numbers(ranges).contains(s) {
            let i = choose|i: int| 0 <= i < ranges.len() && within(#[trigger] ranges[i], s);
            assert(within(is[if i <= at { i } else { i - 1 }], s));
        }
    }
    assert(numbers(is) =~= numbers(ranges));
}

impl View for SeenSequences {
    type V = Set<u64>;

    closed spec fn view(&self) -> Set<u64> {
        numbers(self.ranges@)
    }
}

impl SeenSequences {
    pub closed spec fn wf(&self) -> bool {
        ascending(self.ranges@)
    }

    /// An empty set.
    pub fn new() -> (seen: SeenSequences)
        ensures
            seen.wf(),
            seen@ == Set::<u64>::empty(),
    {
        let seen = SeenSequences { ranges: Vec::new() };
        assert(seen@ =~= Set::<u64>::empty());
        seen
    }

    /// How many ranges begin at or before a sequence number.
    fn place(&self, sequence: u64) -> (at: usize)
        requires
            self.wf(),
        ensures
            at <= self.ranges@.len(),
            forall|i: int| 0 <= i < at ==> (#[trigger] self.ranges@[i]).0 <= sequence,
            forall|i: int|
                at <= i < self.ranges@.len() ==> (#[trigger] self.ranges@[i]).0 > sequence,
    {
        let mut from: usize = 0;
        let mut to: usize = self.ranges.len();
        while from < to
            invariant
                self.wf(),
                from <= to <= self.ranges@.len(),
                forall|i: int| 0 <= i < from ==> (#[trigger] self.ranges@[i]).0 <= sequence,
                forall|i: int|
                    to <= i < self.ranges@.len() ==> (#[trigger] self.ranges@[i]).0 > sequence,
            decreases to - from,
        {
            let mid: usize = from + (to - from) / 2;
            if self.ranges[mid].0 <= sequence {
                from = mid + 1;
            } else {
                to = mid;
            }
        }
        from
    }

    /// Whether a sequence number is in the set.
    pub fn contains(&self, sequence: u64) -> (found: bool)
        requires
            self.wf(),
        ensures
            found == self@.contains(sequence),
    {
        let at: usize = self.place(sequence);
        if at == 0 {
            return false;
        }
        let last: (u64, u64) = self.ranges[at - 1];
        assert(within(self.ranges@[at - 1], sequence) <==> sequence <= last.1);
        sequence <= last.1
    }

    /// Joins the range at `at` with the one behind it, if there is no gap
    /// between them.
    fn join(&mut self, at: usize)
        requires
            old(self).wf(),
            at + 1 < old(self).ranges@.len(),
        ensures
            final(self).wf(),
            final(self)@ == old(self)@,
    {
        assert(at < self.ranges.len() - 1);
        let (first, end): (u64, u64) = self.ranges[at];
        let (next, last): (u64, u64) = self.ranges[at + 1];
        if next - end == 1 {
            proof {
                lemma_joined(self.ranges@, at as int);
            }
            self.ranges.remove(at + 1);
            self.ranges.set(at, (first, last));
            assert(self.ranges@ =~= joined(old(self).ranges@, at as int));
        }
    }

    /// Adds a sequence number that is not in the set.
    pub fn add_new(&mut self, sequence: u64)
        requires
            old(self).wf(),
            !old(self)@.contains(sequence),
        ensures
            final(self).wf(),
            final(self)@ == old(self)@.insert(sequence),
    {
        let at: usize = self.place(sequence);
        proof {
            assert forall|i: int| 0 <= i < at implies (#[trigger] self.ranges@[i]).1 < sequence by {
                assert(!within(self.ranges@[i], sequence));
            }
            lemma_inserted(self.ranges@, at as int, sequence);
        }
        self.ranges.insert(at, (sequence, sequence));
        if at < self.ranges.len() - 1 {
            self.join(at);
        }
        if at > 0 && at < self.ranges.len() {
            self.join(at - 1);
        }
    }
}

/// The frames that a receiver has taken, by connection id and sequence number.
#[derive(Debug)]
pub struct SeenFrames {
    by_id: Table<u32, SeenSequences>,
}

impl View for SeenFrames {
    type V = Set<(u32, u64)>;

    closed spec fn view(&self) -> Set<(u32, u64)> {
        Set::new(
            |frame: (u32, u64)|
                self.by_id@.dom().contains(frame.0) && self.by_id@[frame.0]@.contains(frame.1),
        )
    }
}

impl SeenFrames {
    pub closed spec fn wf(&self) -> bool {
        &&& self.by_id.wf()
        &&& forall|id: u32| #[trigger]
            self.by_id@.dom().contains(id) ==> self.by_id@[id].wf()
    }

    /// No frames.
    pub fn new() -> (seen: SeenFrames)
        ensures
            seen.wf(),
            seen@ == Set::<(u32, u64)>::empty(),
    {
        let seen = SeenFrames { by_id: Table::new() };
        assert(seen@ =~= Set::<(u32, u64)>::empty());
        seen
    }

    /// Whether a frame has been taken.
    pub fn contains(&self, connection_id: u32, sequence: u64) -> (found: bool)
        requires
            self.wf(),
        ensures
            found == self@.contains((connection_id, sequence)),
    {
        match self.by_id.get(&connection_id) {
            Some(sequences) => sequences.contains(sequence),
            None => false,
        }
    }

    /// Adds a frame that has not been taken.
    pub fn add_new(&mut self, connection_id: u32, sequence: u64)
        requires
            old(self).wf(),
            !old(self)@.contains((connection_id, sequence)),
        ensures
            final(self).wf(),
            final(self)@ == old(self)@.insert((connection_id, sequence)),
    {
        let known = match self.by_id.get_mut(&connection_id) {
            Some(sequences) => {
                sequences.add_new(sequence);
                true
            },
            None => false,
        };
        if !known {
            let mut sequences = SeenSequences::new();
            sequences.add_new(sequence);
            self.by_id.insert(connection_id, sequences);
        }
        assert(self@ =~= old(self)@.insert((connection_id, sequence)));
    }
}

/// Why a frame is not taken.
#[derive(Debug, Clone, Copy, PartialEq, Eq, Structural)]
pub enum ReceiveError {
    /// It cannot be read or decrypted.
    Protocol(ProtocolError),
    /// A frame with this connection id and sequence number was taken before.
    Repeated { connection_id: u32, sequence: u64 },
}

/// What tells the frames of a session apart: connection id and sequence number.
pub open spec fn frame_id(h: Header) -> (u32, u64) {
    (h.connection_id, h.sequence)
}

/// What a receiver that has taken these frames makes of a frame.
pub open spec fn received(key: Seq<u8>, seen: Set<(u32, u64)>, wire: Seq<u8>) -> Result<
    (Header, Seq<u8>),
    ReceiveError,
> {
    match frame_front(wire) {
        Err(e) => Err(ReceiveError::Protocol(e)),
        Ok(h) => if seen.contains(frame_id(h)) {
            Err(
                ReceiveError::Repeated { connection_id: h.connection_id, sequence: h.sequence },
            )
        } else {
            match opened_frame(key, wire) {
                Err(e) => Err(ReceiveError::Protocol(e)),
                Ok(frame) => Ok(frame),
            }
        },
    }
}

/// Takes a frame: its header and payload. It then counts as seen; a frame that is
/// refused changes nothing.
pub fn receive(key: &AeadKey, seen: &mut SeenFrames, wire: &[u8]) -> (r: Result<
    (Header, Vec<u8>),
    ReceiveError,
>)
    requires
        old(seen).wf(),
    ensures
        final(seen).wf(),
        match r {
            Ok((h, payload)) => {
                &&& received(key@, old(seen)@, wire@) == Ok::<(Header, Seq<u8>), ReceiveError>(
                    (h, payload@),
                )
                &&& final(seen)@ == old(seen)@.insert(frame_id(h))
            },
            Err(e) => {
                &&& received(key@, old(seen)@, wire@) == Err::<(Header, Seq<u8>), ReceiveError>(e)
                &&& *final(seen) == *old(seen)
            },
        },
{
    let front = match read_frame_front(wire) {
        Ok(header) => header,
        Err(e) => {
            return Err(ReceiveError::Protocol(e));
        },
    };
    if seen.contains(front.connection_id, front.sequence) {
        return Err(
            ReceiveError::Repeated {
                connection_id: front.connection_id,
                sequence: front.sequence,
            },
        );
    }
    match decrypt_frame(key, wire) {
        Ok((header, payload)) => {
            seen.add_new(header.connection_id, header.sequence);
            Ok((header, payload))
        },
        Err(e) => Err(ReceiveError::Protocol(e)),
    }
}

/// A frame that opens, and that has not been taken, is taken.
pub proof fn new_frame_is_taken(
    key: Seq<u8>,
    seen: Set<(u32, u64)>,
    wire: Seq<u8>,
    h: Header,
    payload: Seq<u8>,
)
    requires
        opened_frame(key, wire) == Ok::<(Header, Seq<u8>), ProtocolError>((h, payload)),
        !seen.contains(frame_id(h)),
    ensures
        received(key, seen, wire) == Ok::<(Header, Seq<u8>), ReceiveError>((h, payload)),
{
}

/// The frames that are seen once frames have come in, in this order.
pub open spec fn seen_after(key: Seq<u8>, seen: Set<(u32, u64)>, wires: Seq<Seq<u8>>) -> Set<(u32, u64)>
    decreases wires.len(),
{
    if wires.len() == 0 {
        seen
    } else {
        let before = seen_after(key, seen, wires.drop_last());
        match received(key, before, wires.last()) {
            Ok((h, _)) => before.insert(frame_id(h)),
            Err(_) => before,
        }
    }
}

/// Whether the frame at `i` of those that come in is taken.
pub open spec fn is_taken(key: Seq<u8>, seen: Set<(u32, u64)>, wires: Seq<Seq<u8>>, i: int) -> bool {
    received(key, seen_after(key, seen, wires.take(i)), wires[i]) is Ok
}

proof fn lemma_seen_grows(key: Seq<u8>, seen: Set<(u32, u64)>, wires: Seq<Seq<u8>>, i: int)
    requires
        0 <= i <= wires.len(),
    ensures
        seen_after(key, seen, wires.take(i)).subset_of(seen_after(key, seen, wires)),
    decreases wires.len(),
{
    if i < wires.len() {
        lemma_seen_grows(key, seen, wires.drop_last(), i);
        assert(wires.drop_last().take(i) =~= wires.take(i));
    } else {
        assert(wires.take(i) =~= wires);
    }
}

/// Of all the frames with one connection id and sequence number that come in,
/// whatever comes in between them, at most one is taken.
pub proof fn frames_are_taken_once(
    key: Seq<u8>,
    seen: Set<(u32, u64)>,
    wires: Seq<Seq<u8>>,
    i: int,
    j: int,
)
    requires
        0 <= i < j < wires.len(),
        is_taken(key, seen, wires, i),
        is_taken(key, seen, wires, j),
    ensures
        frame_id(frame_front(wires[i])->Ok_0) != frame_id(frame_front(wires[j])->Ok_0),
{
    let upto = wires.take(i + 1);
    assert(upto.drop_last() =~= wires.take(i));
    assert(upto.last() == wires[i]);
    lemma_seen_grows(key, seen, wires.take(j), i + 1);
    assert(wires.take(j).take(i + 1) =~= upto);
    assert(seen_after(key, seen, upto).contains(frame_id(frame_front(wires[i])->Ok_0)));
}

/// Without any frame taken, a frame is taken exactly where it opens, and refused
/// for the same reason as where it does not.
pub proof fn first_frame_is_taken_if_it_opens(key: Seq<u8>, wire: Seq<u8>)
    ensures
        received(key, Set::empty(), wire) == (match opened_frame(key, wire) {
            Ok(frame) => Ok(frame),
            Err(e) => Err(ReceiveError::Protocol(e)),
        }),
{
}

/// Taking a frame refuses every later frame of the same connection id and
/// sequence number, and changes nothing for any other: neither for those of
/// another connection, nor for those of another number.
pub proof fn taken_frame_refuses_its_copies_alone(
    key: Seq<u8>,
    seen: Set<(u32, u64)>,
    taken: Header,
    wire: Seq<u8>,
)
    ensures
        frame_front(wire) matches Ok(h) ==> if h.connection_id == taken.connection_id && h.sequence
            == taken.sequence {
            received(key, seen.insert(frame_id(taken)), wire) == Err::<
                (Header, Seq<u8>),
                ReceiveError,
            >(
                ReceiveError::Repeated {
                    connection_id: taken.connection_id,
                    sequence: taken.sequence,
                },
            )
        } else {
            received(key, seen.insert(frame_id(taken)), wire) == received(key, seen, wire)
        },
        frame_id(taken).0 == taken.connection_id,
        frame_id(taken).1 == taken.sequence,
        frame_front(wire) matches Err(e) ==> received(key, seen, wire) == Err::<
            (Header, Seq<u8>),
            ReceiveError,
        >(ReceiveError::Protocol(e)),
{
}

} // verus!
