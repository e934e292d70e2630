//! Reed-Solomon forward error correction over blocks of frames.
//!
//! The sender groups N data frames into a block, computes K parity frames and
//! sends all N + K. The receiver gets the N data frames back from any N of the
//! N + K.
//!
//! - A higher K tolerates more loss, and costs bandwidth and time to recover.
//! - A smaller N recovers sooner, at more parity per data frame.
//! - N = 10, K = 2 costs 20 % and recovers 2 of 12. For game traffic that
//!   tolerates 50 ms, N between 4 and 8 keeps the wait for a full block short.

use vstd::prelude::*;
use vstd::slice::slice_to_vec;

use reed_solomon_erasure::galois_8::ReedSolomon;

verus! {

#[derive(Debug)]
pub enum FecError {
    /// The block configuration is invalid (at least one data shard and one
    /// parity shard are needed), or the number of shards given is not that of
    /// the configuration.
    InvalidConfig { data: usize, parity: usize },
    /// The Reed-Solomon library refused, with this message.
    ReedSolomon(String),
    /// Fewer shards are present than there are data shards.
    InsufficientShards { have: usize, need: usize },
    /// The shards of a block have to be equally long.
    InconsistentShardSize { expected: usize, got: usize },
}

/// The bytes of each shard.
pub open spec fn shard_bytes(shards: Seq<Vec<u8>>) -> Seq<Seq<u8>> {
    shards.map_values(|s: Vec<u8>| s@)
}

/// The bytes of each slot that holds a shard.
pub open spec fn slot_bytes(slots: Seq<Option<Vec<u8>>>) -> Seq<Option<Seq<u8>>> {
    slots.map_values(
        |s: Option<Vec<u8>>|
            match s {
                Some(shard) => Some(shard@),
                None => None,
            },
    )
}

/// How many slots hold a shard.
pub open spec fn present(slots: Seq<Option<Seq<u8>>>) -> nat
    decreases slots.len(),
{
    if slots.len() == 0 {
        0
    } else {
        present(slots.drop_last()) + if slots.last() is Some {
            1nat
        } else {
            0
        }
    }
}

/// Whether `slots` is what is left of `block` after some of its shards were
/// lost.
pub open spec fn is_rest_of(slots: Seq<Option<Seq<u8>>>, block: Seq<Seq<u8>>) -> bool {
    &&& slots.len() == block.len()
    &&& forall|i: int|
        0 <= i < slots.len() ==> (#[trigger] slots[i] is None || slots[i] == Some(block[i]))
}

/// Whether the shard in slot `i` is empty, or not as long as one in an earlier
/// slot.
pub open spec fn is_misfit(slots: Seq<Option<Seq<u8>>>, i: int) -> bool {
    &&& 0 <= i < slots.len()
    &&& slots[i] matches Some(shard) && (shard.len() == 0 || exists|j: int|
        0 <= j < i && (#[trigger] slots[j] matches Some(first) && first.len() != shard.len()))
}

/// Whether slot `i` is the first misfit.
pub open spec fn is_first_misfit(slots: Seq<Option<Seq<u8>>>, i: int) -> bool {
    is_misfit(slots, i) && forall|j: int| 0 <= j < i ==> !#[trigger] is_misfit(slots, j)
}

/// Whether a block of `data` and `parity` shards can be coded in bytes.
pub open spec fn codable(data: nat, parity: nat) -> bool {
    data >= 1 && parity >= 1 && data + parity <= 256
}

/// The message with which a configuration is refused.
pub open spec fn config_refusal(data: nat, parity: nat) -> Seq<char> {
    if data == 0 {
        "The number of provided data shards is smaller than the one in codec"@
    } else if parity == 0 {
        "The number of provided parity shards is smaller than the one in codec"@
    } else {
        "The number of provided shards is greater than the one in codec"@
    }
}

/// The message with which empty shards are refused.
pub open spec fn empty_refusal() -> Seq<char> {
    "The first shard provided is of zero length"@
}

/// The message with which shards of different lengths are refused.
pub open spec fn size_refusal() -> Seq<char> {
    "At least one of the provided shards is not of the correct size"@
}

/// The parity shards of a block of data shards.
pub uninterp spec fn rs_parity(data_shards: nat, parity_shards: nat, data: Seq<Seq<u8>>) -> Seq<
    Seq<u8>,
>;

/// The data shards that are recovered from the slots of a block.
pub uninterp spec fn rs_restored(
    data_shards: nat,
    parity_shards: nat,
    slots: Seq<Option<Seq<u8>>>,
) -> Seq<Seq<u8>>;

/// From the block's data and parity, whatever is lost of it, as long as at
/// least as many shards as there are data shards are left, the data is
/// recovered.
pub open spec fn recoverable(data_shards: nat, parity_shards: nat, data: Seq<Seq<u8>>) -> bool {
    forall|slots: Seq<Option<Seq<u8>>>|
        is_rest_of(slots, data + rs_parity(data_shards, parity_shards, data)) && present(slots)
            >= data_shards ==> #[trigger] rs_restored(data_shards, parity_shards, slots) == data
}

/// The receiver gets the data back: from what is left of a block, if at least
/// as many shards are left as there are data shards, it recovers the data, and
/// nothing in it is a misfit.
pub proof fn lost_shards_are_recovered(
    data_shards: nat,
    parity_shards: nat,
    data: Seq<Seq<u8>>,
    len: nat,
    slots: Seq<Option<Seq<u8>>>,
)
    requires
        len > 0,
        forall|i: int| 0 <= i < data.len() ==> #[trigger] data[i].len() == len,
        ({
            let parity = rs_parity(data_shards, parity_shards, data);
            &&& forall|i: int| 0 <= i < parity.len() ==> #[trigger] parity[i].len() == len
            &&& recoverable(data_shards, parity_shards, data)
            &&& is_rest_of(slots, data + parity)
            &&& present(slots) >= data_shards
        }),
    ensures
        rs_restored(data_shards, parity_shards, slots) == data,
        forall|i: int| !#[trigger] is_misfit(slots, i),
{
    let parity = rs_parity(data_shards, parity_shards, data);
    let block = data + parity;
    assert forall|i: int| 0 <= i < slots.len() && slots[i] is Some implies slots[i]->Some_0.len()
        == len by {
        assert(slots[i] == Some(block[i]));
        if i < data.len() {
            assert(block[i] == data[i]);
        } else {
            assert(block[i] == parity[i - data.len()]);
        }
    }
}

/// Calls `ReedSolomon::new` over GF(2^8): it takes at least one shard of each
/// sort and at most 256 together, and refuses others with the message of the
/// error.
#[verifier::external_body]
fn rs_configure(data_shards: usize, parity_shards: usize) -> (r: Result<(), String>)
    requires
        data_shards + parity_shards <= usize::MAX,
    ensures
        r is Ok <==> codable(data_shards as nat, parity_shards as nat),
        r matches Err(message) ==> message@ == config_refusal(
            data_shards as nat,
            parity_shards as nat,
        ),
{
    ReedSolomon::new(data_shards, parity_shards).map(|_| ()).map_err(|e| e.to_string())
}

/// Calls `ReedSolomon::encode` over GF(2^8) on shards of equal length, the data
/// shards first. It leaves the data shards as they are and overwrites the others
/// with the parity, from which the data can be recovered; it refuses shards of
/// no length.
#[verifier::external_body]
fn rs_encode(data_shards: usize, parity_shards: usize, shards: &mut Vec<Vec<u8>>) -> (r: Result<
    (),
    String,
>)
    requires
        codable(data_shards as nat, parity_shards as nat),
        old(shards)@.len() == data_shards + parity_shards,
        forall|i: int|
            0 <= i < old(shards)@.len() ==> #[trigger] old(shards)@[i]@.len() == old(
                shards,
            )@[0]@.len(),
    ensures
        r is Ok <==> old(shards)@[0]@.len() > 0,
        r matches Err(message) ==> message@ == empty_refusal() && final(shards)@ == old(shards)@,
        r is Ok ==> {
            let data = shard_bytes(old(shards)@).take(data_shards as int);
            let parity = rs_parity(data_shards as nat, parity_shards as nat, data);
            &&& shard_bytes(final(shards)@) == data + parity
            &&& parity.len() == parity_shards
            &&& forall|i: int|
                0 <= i < parity.len() ==> #[trigger] parity[i].len() == old(shards)@[0]@.len()
            &&& recoverable(data_shards as nat, parity_shards as nat, data)
        },
{
    ReedSolomon::new(data_shards, parity_shards)
        .and_then(|codec| codec.encode(shards))
        .map_err(|e| e.to_string())
}

/// Calls `ReedSolomon::reconstruct_data` over GF(2^8). It fills every data slot
/// and leaves the rest as it is; it refuses shards that are empty or of
/// different lengths, and then changes nothing.
#[verifier::external_body]
fn rs_reconstruct(data_shards: usize, parity_shards: usize, slots: &mut [Option<Vec<u8>>]) -> (r:
    Result<(), String>)
    requires
        codable(data_shards as nat, parity_shards as nat),
        old(slots)@.len() == data_shards + parity_shards,
        present(slot_bytes(old(slots)@)) >= data_shards,
    ensures
        final(slots)@.len() == old(slots)@.len(),
        r is Ok <==> forall|i: int| !#[trigger] is_misfit(slot_bytes(old(slots)@), i),
        r matches Err(message) ==> {
            &&& final(slots)@ == old(slots)@
            &&& exists|i: int|
                #![trigger is_first_misfit(slot_bytes(old(slots)@), i)]
                is_first_misfit(slot_bytes(old(slots)@), i) && message@ == (if slot_bytes(
                    old(slots)@,
                )[i]->Some_0.len() == 0 {
                    empty_refusal()
                } else {
                    size_refusal()
                })
        },
        r is Ok ==> {
            let was = slot_bytes(old(slots)@);
            let is = slot_bytes(final(slots)@);
            let data = rs_restored(data_shards as nat, parity_shards as nat, was);
            &&& data.len() == data_shards
            &&& forall|i: int| 0 <= i < data_shards ==> #[trigger] is[i] == Some(data[i])
            &&& forall|i: int| 0 <= i < was.len() && was[i] is Some ==> #[trigger] is[i] == was[i]
            &&& forall|i: int| data_shards <= i < was.len() ==> #[trigger] is[i] == was[i]
        },
{
    ReedSolomon::new(data_shards, parity_shards)
        .and_then(|codec| codec.reconstruct_data(slots))
        .map_err(|e| e.to_string())
}

/// Computes the parity shards of blocks of one configuration.
#[derive(Debug)]
pub struct Encoder {
    pub data_shards: usize,
    pub parity_shards: usize,
    /// How many shards a block has.
    total: usize,
}

impl Encoder {
    /// The value of the field `data_shards`.
    pub closed spec fn data(self) -> nat {
        self.data_shards as nat
    }

    /// The value of the field `parity_shards`.
    pub closed spec fn parity(self) -> nat {
        self.parity_shards as nat
    }

    pub closed spec fn wf(self) -> bool {
        &&& codable(self.data_shards as nat, self.parity_shards as nat)
        &&& self.total == self.data_shards + self.parity_shards
    }

    /// Whether shard `i` is the first whose length is not that of shard 0.
    pub open spec fn is_first_odd(data: Seq<Vec<u8>>, i: int) -> bool {
        &&& 0 <= i < data.len()
        &&& data[i]@.len() != data[0]@.len()
        &&& forall|j: int| 0 <= j < i ==> #[trigger] data[j]@.len() == data[0]@.len()
    }

    /// Whether all shards are equally long.
    pub open spec fn is_even(data: Seq<Vec<u8>>) -> bool {
        forall|i: int| 0 <= i < data.len() ==> #[trigger] data[i]@.len() == data[0]@.len()
    }

    /// An encoder for `data_shards` data and `parity_shards` parity shards.
    pub fn new(data_shards: usize, parity_shards: usize) -> (r: Result<Encoder, FecError>)
        requires
            data_shards + parity_shards <= usize::MAX,
        ensures
            match r {
                Ok(encoder) => {
                    &&& encoder.wf()
                    &&& encoder.data() == data_shards
                    &&& encoder.parity() == parity_shards
                },
                Err(FecError::InvalidConfig { data, parity }) => {
                    &&& data == data_shards
                    &&& parity == parity_shards
                    &&& data == 0 || parity == 0
                },
                Err(FecError::ReedSolomon(message)) => {
                    &&& data_shards > 0 && parity_shards > 0 && data_shards + parity_shards > 256
                    &&& message@ == config_refusal(data_shards as nat, parity_shards as nat)
                },
                Err(_) => false,
            },
    {
        if data_shards == 0 || parity_shards == 0 {
            return Err(FecError::InvalidConfig { data: data_shards, parity: parity_shards });
        }
        match rs_configure(data_shards, parity_shards) {
            Ok(()) => Ok(Encoder { data_shards, parity_shards, total: data_shards + parity_shards }),
            Err(message) => Err(FecError::ReedSolomon(message)),
        }
    }

    /// Computes the parity shards. `data` has to hold exactly `data_shards`
    /// shards of one length above zero; there are `parity_shards` parity shards
    /// of that length.
    ///
    /// From any `data_shards` of the data and parity shards the data can be
    /// recovered.
    pub fn encode(&self, data: &[Vec<u8>]) -> (r: Result<Vec<Vec<u8>>, FecError>)
        requires
            self.wf(),
        ensures
            match r {
                Ok(parity) => {
                    &&& data@.len() == self.data() && Encoder::is_even(data@)
                    &&& data@[0]@.len() > 0
                    &&& shard_bytes(parity@) == rs_parity(
                        self.data(),
                        self.parity(),
                        shard_bytes(data@),
                    )
                    &&& parity@.len() == self.parity()
                    &&& forall|i: int|
                        0 <= i < parity@.len() ==> #[trigger] parity@[i]@.len() == data@[0]@.len()
                    &&& recoverable(
                        self.data(),
                        self.parity(),
                        shard_bytes(data@),
                    )
                },
                Err(FecError::InvalidConfig { data: n, parity: k }) => {
                    data@.len() != self.data() && n == data@.len() && k == self.parity()
                },
                Err(FecError::InconsistentShardSize { expected, got }) => {
                    &&& data@.len() == self.data()
                    &&& expected == data@[0]@.len()
                    &&& exists|i: int|
                        #[trigger] Encoder::is_first_odd(data@, i) && got == data@[i]@.len()
                },
                Err(FecError::ReedSolomon(message)) => {
                    &&& data@.len() == self.data() && Encoder::is_even(data@)
                    &&& data@[0]@.len() == 0
                    &&& message@ == empty_refusal()
                },
                Err(_) => false,
            },
    {
        if data.len() != self.data_shards {
            return Err(
                FecError::InvalidConfig { data: data.len(), parity: self.parity_shards },
            );
        }
        let shard_len: usize = data[0].len();
        let mut shards: Vec<Vec<u8>> = Vec::new();
        let mut i: usize = 0;
        while i < data.len()
            invariant
                0 < self.data_shards == data@.len(),
                i <= data@.len(),
                shard_len == data@[0]@.len(),
                forall|j: int| 0 <= j < i ==> #[trigger] data@[j]@.len() == shard_len,
                shards@.len() == i,
                forall|j: int| 0 <= j < i ==> #[trigger] shards@[j]@ == data@[j]@,
            decreases data@.len() - i,
        {
            if data[i].len() != shard_len {
                assert(Encoder::is_first_odd(data@, i as int));
                return Err(
                    FecError::InconsistentShardSize { expected: shard_len, got: data[i].len() },
                );
            }
            shards.push(slice_to_vec(&data[i]));
            i += 1;
        }
        while shards.len() < self.total
            invariant
                self.wf(),
                data@.len() == self.data_shards,
                self.data_shards <= shards@.len() <= self.data_shards + self.parity_shards,
                forall|j: int|
                    0 <= j < self.data_shards ==> #[trigger] shards@[j]@ == data@[j]@,
                forall|j: int| 0 <= j < shards@.len() ==> #[trigger] shards@[j]@.len() == shard_len,
            decreases self.data_shards + self.parity_shards - shards@.len(),
        {
            let mut blank: Vec<u8> = Vec::new();
            blank.resize(shard_len, 0u8);
            shards.push(blank);
        }
        assert(shard_bytes(shards@).take(self.data_shards as int) =~= shard_bytes(data@));
        match rs_encode(self.data_shards, self.parity_shards, &mut shards) {
            Ok(()) => {
                let ghost whole = shard_bytes(shards@);
                assert(whole.len() == shards@.len());
                let parity = shards.split_off(self.data_shards);
                proof {
                    let n = self.data_shards as nat;
                    let expected = rs_parity(n, self.parity_shards as nat, shard_bytes(data@));
                    assert(shard_bytes(parity@) =~= expected) by {
                        assert forall|j: int| 0 <= j < expected.len() implies shard_bytes(
                            parity@,
                        )[j] == expected[j] by {
                            assert(whole[n + j] == expected[j]);
                        }
                    }
                    assert forall|j: int| 0 <= j < parity@.len() implies #[trigger] parity@[j]@.len()
                        == data@[0]@.len() by {
                        assert(shard_bytes(parity@)[j].len() == data@[0]@.len());
                    }
                }
                Ok(parity)
            },
            Err(message) => Err(FecError::ReedSolomon(message)),
        }
    }
}

/// Recovers the data shards of blocks of one configuration.
#[derive(Debug)]
pub struct Decoder {
    pub data_shards: usize,
    pub parity_shards: usize,
    /// How many shards a block has.
    total: usize,
}

impl Decoder {
    /// The value of the field `data_shards`.
    pub closed spec fn data(self) -> nat {
        self.data_shards as nat
    }

    /// The value of the field `parity_shards`.
    pub closed spec fn parity(self) -> nat {
        self.parity_shards as nat
    }

    pub closed spec fn wf(self) -> bool {
        &&& codable(self.data_shards as nat, self.parity_shards as nat)
        &&& self.total == self.data_shards + self.parity_shards
    }

    /// A decoder for `data_shards` data and `parity_shards` parity shards.
    pub fn new(data_shards: usize, parity_shards: usize) -> (r: Result<Decoder, FecError>)
        requires
            data_shards + parity_shards <= usize::MAX,
        ensures
            match r {
                Ok(decoder) => {
                    &&& decoder.wf()
                    &&& decoder.data() == data_shards
                    &&& decoder.parity() == parity_shards
                },
                Err(FecError::ReedSolomon(message)) => {
                    &&& !codable(data_shards as nat, parity_shards as nat)
                    &&& message@ == config_refusal(data_shards as nat, parity_shards as nat)
                },
                Err(_) => false,
            },
    {
        match rs_configure(data_shards, parity_shards) {
            Ok(()) => Ok(Decoder { data_shards, parity_shards, total: data_shards + parity_shards }),
            Err(message) => Err(FecError::ReedSolomon(message)),
        }
    }

    /// Recovers the missing data shards. `shards` has a slot for every data and
    /// every parity shard; a missing one is `None`. On success every data slot
    /// is filled and no other slot has changed; on failure no slot has.
    pub fn reconstruct_data(&self, shards: &mut [Option<Vec<u8>>]) -> (r: Result<(), FecError>)
        requires
            self.wf(),
        ensures
            final(shards)@.len() == old(shards)@.len(),
            r is Err ==> final(shards)@ == old(shards)@,
            ({
                let was = slot_bytes(old(shards)@);
                let is = slot_bytes(final(shards)@);
                match r {
                    Ok(()) => {
                        let data = rs_restored(
                            self.data(),
                            self.parity(),
                            was,
                        );
                        &&& was.len() == self.data() + self.parity()
                        &&& present(was) >= self.data()
                        &&& forall|i: int| !#[trigger] is_misfit(was, i)
                        &&& data.len() == self.data()
                        &&& forall|i: int|
                            0 <= i < self.data() ==> #[trigger] is[i] == Some(data[i])
                        &&& forall|i: int|
                            0 <= i < was.len() && (was[i] is Some || i >= self.data())
                                ==> #[trigger] is[i] == was[i]
                    },
                    Err(FecError::InvalidConfig { data, parity }) => {
                        &&& was.len() != self.data() + self.parity()
                        &&& data == was.len()
                        &&& parity == 0
                    },
                    Err(FecError::InsufficientShards { have, need }) => {
                        &&& was.len() == self.data() + self.parity()
                        &&& have == present(was)
                        &&& need == self.data()
                        &&& have < need
                    },
                    Err(FecError::ReedSolomon(message)) => {
                        &&& was.len() == self.data() + self.parity()
                        &&& present(was) >= self.data()
                        &&& exists|i: int|
                            #![trigger is_first_misfit(was, i)]
                            is_first_misfit(was, i) && message@ == (if was[i]->Some_0.len() == 0 {
                                empty_refusal()
                            } else {
                                size_refusal()
                            })
                    },
                    Err(_) => false,
                }
            }),
    {
        if shards.len() != self.total {
            return Err(FecError::InvalidConfig { data: shards.len(), parity: 0 });
        }
        let mut have: usize = 0;
        let mut i: usize = 0;
        while i < shards.len()
            invariant
                shards@ == old(shards)@,
                i <= shards@.len(),
                have <= i,
                have == present(slot_bytes(shards@).take(i as int)),
            decreases shards@.len() - i,
        {
            let filled = match &shards[i] {
                Some(_) => true,
                None => false,
            };
            proof {
                let next = slot_bytes(shards@).take(i + 1);
                assert(next.drop_last() =~= slot_bytes(shards@).take(i as int));
                assert(next.last() is Some <==> shards@[i as int] is Some);
            }
            if filled {
                have += 1;
            }
            i += 1;
        }
        assert(slot_bytes(shards@).take(i as int) =~= slot_bytes(shards@));
        if have < self.data_shards {
            return Err(FecError::InsufficientShards { have, need: self.data_shards });
        }
        match rs_reconstruct(self.data_shards, self.parity_shards, shards) {
            Ok(()) => Ok(()),
            Err(message) => Err(FecError::ReedSolomon(message)),
        }
    }
}

/// Shards are counted one by one.
pub proof fn shards_are_counted(a: Seq<Option<Seq<u8>>>, b: Seq<Option<Seq<u8>>>, slot: Option<Seq<u8>>)
    ensures
        present(a + b) == present(a) + present(b),
        present(seq![slot]) == (if slot is Some {
            1nat
        } else {
            0
        }),
    decreases b.len(),
{
    reveal_with_fuel(present, 2);
    assert(seq![slot].drop_last() =~= Seq::<Option<Seq<u8>>>::empty());
    if b.len() == 0 {
        assert(a + b =~= a);
    } else {
        shards_are_counted(a, b.drop_last(), slot);
        assert((a + b).drop_last() =~= a + b.drop_last());
    }
}

/// Shards are even exactly where any two are equally long; where they are not,
/// there is a first one that differs from the first of all, and only one.
pub proof fn odd_shard_is_the_first_that_differs(data: Seq<Vec<u8>>, i: int, j: int)
    ensures
        Encoder::is_even(data) && 0 <= i < data.len() && 0 <= j < data.len() ==> data[i]@.len()
            == data[j]@.len(),
        Encoder::is_first_odd(data, i) ==> {
            &&& 0 < i < data.len()
            &&& data[i]@.len() != data[0]@.len()
            &&& 0 <= j < i ==> data[j]@.len() == data[0]@.len()
            &&& !Encoder::is_even(data)
        },
{
    if Encoder::is_even(data) && 0 <= i < data.len() {
        assert(data[i]@.len() == data[0]@.len());
    }
    if Encoder::is_first_odd(data, i) && Encoder::is_even(data) {
        assert(data[i]@.len() == data[0]@.len());
    }
}

/// A block can be coded exactly where it has a shard of each sort and no more than
/// 256; and the bytes of shards and slots are those of each.
pub proof fn blocks_are_of_up_to_256_shards(
    data: nat,
    parity: nat,
    shards: Seq<Vec<u8>>,
    slots: Seq<Option<Vec<u8>>>,
    i: int,
)
    ensures
        codable(data, parity) <==> 1 <= data && 1 <= parity && data + parity <= 256,
        shard_bytes(shards).len() == shards.len(),
        0 <= i < shards.len() ==> shard_bytes(shards)[i] == shards[i]@,
        slot_bytes(slots).len() == slots.len(),
        0 <= i < slots.len() ==> (slot_bytes(slots)[i] is Some <==> slots[i] is Some),
        0 <= i < slots.len() ==> (slots[i] matches Some(shard) ==> slot_bytes(slots)[i] == Some(
            shard@,
        )),
{
}

/// The numbers of shards stand in the fields of their names.
proof fn shard_counts_are_fields(encoder: Encoder, decoder: Decoder)
    ensures
        encoder.data() == encoder.data_shards,
        encoder.parity() == encoder.parity_shards,
        decoder.data() == decoder.data_shards,
        decoder.parity() == decoder.parity_shards,
{
}

} // verus!
