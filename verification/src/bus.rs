//! A bus with a fixed set of devices, and what the search finds on it.
//!
//! Nothing here runs: the model says which levels the read slots of a pass
//! show when the devices behave as the protocol asks, and the lemmas state
//! what a pass that is fed these levels finds.

use crate::address::checksum_holds;
use crate::error::ErrorKind;
use crate::search::{bit_at, lemma_with_bit, presence_outcome, with_bit, RunModel};
use vstd::prelude::*;

verus! {

/// `a` and `b` have the same bits below `position`.
pub open spec fn agree_below(a: u64, b: u64, position: u8) -> bool {
    forall|j: u64|
        #![trigger bit_at(a, j)]
        #![trigger bit_at(b, j)]
        j < position ==> bit_at(a, j) == bit_at(b, j)
}

/// `a` comes before `b` in the order of the wire: at the first bit in which
/// they differ, `a` has 0 and `b` has 1.
pub open spec fn precedes(a: u64, b: u64) -> bool {
    exists|i: u8| #[trigger] differ_at(a, b, i)
}

/// `a` and `b` agree below bit `i`, where `a` has 0 and `b` has 1.
pub open spec fn differ_at(a: u64, b: u64, i: u8) -> bool {
    &&& i < 64
    &&& agree_below(a, b, i)
    &&& !bit_at(a, i as u64)
    &&& bit_at(b, i as u64)
}

/// What a pass leaves for the next one: the address it found and its last
/// unresolved branch.
pub type Seed = (u64, Option<u8>);

/// A bus on which the devices with the addresses `devices` answer, and no
/// others.
pub struct StaticBus {
    /// The addresses of the devices.
    pub devices: Set<u64>,
}

impl StaticBus {
    /// A device answers the reset pulse iff there is one.
    pub open spec fn presence_pulse(self) -> bool {
        exists|d: u64| self.devices.contains(d)
    }

    /// The device `d` still takes part after the bits of `path` below
    /// `position` were written back: it has these bits.
    pub open spec fn listens(self, d: u64, path: u64, position: u8) -> bool {
        self.devices.contains(d) && agree_below(d, path, position)
    }

    /// The level of the first read slot for bit `position`: the line stays
    /// high iff no device that takes part has 0 there.
    pub open spec fn id_slot(self, path: u64, position: u8) -> bool {
        forall|d: u64| #[trigger] self.listens(d, path, position) ==> bit_at(d, position as u64)
    }

    /// The level of the second read slot for bit `position`: the line stays
    /// high iff no device that takes part has 1 there.
    pub open spec fn complement_slot(self, path: u64, position: u8) -> bool {
        forall|d: u64| #[trigger] self.listens(d, path, position) ==> !bit_at(d, position as u64)
    }

    /// At bit `index` the devices that share the lower bits of `address`
    /// disagree, and `address` has 0 there: the 1-branch is still to take.
    pub open spec fn open_branch(self, address: u64, index: u8) -> bool {
        &&& index < 64
        &&& !bit_at(address, index as u64)
        &&& exists|d: u64| #[trigger] self.listens(d, address, index) && bit_at(d, index as u64)
    }

    /// `branch` is the highest open branch of `address` among the bits
    /// below `limit`, or `None` if none of them is open.
    pub open spec fn last_branch_below(self, address: u64, branch: Option<u8>, limit: u8) -> bool {
        &&& branch matches Some(z) ==> z < limit && self.open_branch(address, z)
        &&& forall|j: u8|
            j < limit && #[trigger] self.open_branch(address, j) ==> branch.is_some() && j
                <= branch.unwrap()
    }

    /// `address` belongs to a device, and `branch` is its highest open
    /// branch: what a pass that found `address` leaves for the next one.
    pub open spec fn faithful(self, address: u64, branch: Option<u8>) -> bool {
        self.devices.contains(address) && self.last_branch_below(address, branch, 64)
    }

    /// The pass `run` carried to its end with the levels that the bus
    /// shows; `None` when it is aborted on the way.
    pub open spec fn carried(self, run: RunModel) -> Option<RunModel>
        decreases 64 - run.position,
    {
        if run.position >= 64 {
            Some(run)
        } else {
            let id = self.id_slot(run.path, run.position);
            let complement = self.complement_slot(run.path, run.position);
            if run.direction(id, complement).is_some() {
                self.carried(run.advance(id, complement))
            } else {
                None
            }
        }
    }

    /// Every device carries an address whose checksum holds.
    pub open spec fn devices_valid(self) -> bool {
        forall|d: u64| self.devices.contains(d) ==> checksum_holds(d)
    }

    /// What one pass returns on this bus when it starts from `seed`, the
    /// state that the pass before left (`None` for the first pass): nothing
    /// when the seed has no branch left; `BusTimeout` when no device answers
    /// the reset; else the address at which the pass ends, with the state
    /// for the next pass, unless the pass is aborted or the checksum of the
    /// address fails.
    pub open spec fn search_next(self, seed: Option<Seed>) -> Result<Option<Seed>, ErrorKind> {
        if seed.is_some() && seed.unwrap().1.is_none() {
            Ok(None)
        } else if !self.presence_pulse() {
            Err(ErrorKind::BusTimeout)
        } else {
            let run = match seed {
                Some(state) => RunModel::start(state.0, state.1),
                None => RunModel::start(0, None),
            };
            match self.carried(run) {
                None => Err(ErrorKind::BusConflict),
                Some(end) => if checksum_holds(end.path) {
                    Ok(Some((end.path, end.last_zero)))
                } else {
                    Err(ErrorKind::ChecksumMismatch)
                },
            }
        }
    }

    /// What pass number `n` finds when each pass is seeded with the state
    /// that the one before returned; the first pass has number 0. `None`
    /// once a pass has returned nothing or failed.
    pub open spec fn pass(self, n: nat) -> Option<Seed>
        decreases n,
    {
        if n == 0 {
            match self.search_next(None) {
                Ok(Some(found)) => Some(found),
                _ => None,
            }
        } else {
            match self.pass((n - 1) as nat) {
                Some(seed) => match self.search_next(Some(seed)) {
                    Ok(Some(found)) => Some(found),
                    _ => None,
                },
                None => None,
            }
        }
    }

    /// The addresses that the passes up to number `n` found.
    pub open spec fn found_up_to(self, n: nat) -> Set<u64>
        decreases n,
    {
        if n == 0 {
            Set::empty().insert(self.pass(0).unwrap().0)
        } else {
            self.found_up_to((n - 1) as nat).insert(self.pass(n).unwrap().0)
        }
    }

    /// One of the passes up to number `n` found the device `d`.
    pub open spec fn found_by(self, d: u64, n: nat) -> bool {
        exists|m: nat| m <= n && #[trigger] self.pass(m).is_some() && self.pass(m).unwrap().0 == d
    }
}

/// On a bus without devices the presence phase reports `BusTimeout`, and so
/// does every pass, however often it is repeated: the outcome depends on
/// the devices alone.
pub proof fn lemma_empty_bus_is_absent(bus: StaticBus)
    requires
        forall|d: u64| !bus.devices.contains(d),
    ensures
        !bus.presence_pulse(),
        presence_outcome(bus.presence_pulse()) == Err::<(), ErrorKind>(ErrorKind::BusTimeout),
        bus.search_next(None) == Err::<Option<Seed>, ErrorKind>(ErrorKind::BusTimeout),
{
}

/// An address that a pass returns has a checksum that holds.
pub proof fn lemma_found_address_is_valid(bus: StaticBus, seed: Option<Seed>)
    ensures
        bus.search_next(seed) matches Ok(Some(found)) ==> checksum_holds(found.0),
{
}

/// The bits of `value` below `count`.
spec fn low_bits(value: u64, count: u64) -> u64 {
    if count >= 64 {
        value
    } else {
        value & !(0xffff_ffff_ffff_ffffu64 << count)
    }
}

proof fn lemma_low_bits_determine(a: u64, b: u64, count: u8)
    requires
        count <= 64,
        agree_below(a, b, count),
    ensures
        low_bits(a, count as u64) == low_bits(b, count as u64),
    decreases count,
{
    if count == 0 {
        assert(low_bits(a, 0) == 0 && low_bits(b, 0) == 0) by (bit_vector);
    } else {
        let j: u64 = (count - 1) as u64;
        let k: u64 = count as u64;
        lemma_low_bits_determine(a, b, (count - 1) as u8);
        assert(bit_at(a, j) == bit_at(b, j));
        assert(j < 64 && k == j + 1 && low_bits(a, j) == low_bits(b, j) && bit_at(a, j) == bit_at(
            b,
            j,
        ) ==> low_bits(a, k) == low_bits(b, k)) by (bit_vector);
    }
}

/// Two addresses with the same 64 bits are equal.
pub proof fn lemma_bits_determine(a: u64, b: u64)
    requires
        agree_below(a, b, 64),
    ensures
        a == b,
{
    lemma_low_bits_determine(a, b, 64);
}

/// Writing bit `position` keeps agreement below it, and a device that has
/// the written bit goes on taking part.
proof fn lemma_step_keeps_listener(d: u64, path: u64, position: u8, chosen: bool)
    requires
        position < 64,
        agree_below(d, path, position),
        bit_at(d, position as u64) == chosen,
    ensures
        agree_below(d, with_bit(path, position as u64, chosen), (position + 1) as u8),
{
    let next = with_bit(path, position as u64, chosen);
    assert forall|j: u64| j < position + 1 implies bit_at(d, j) == bit_at(next, j) by {
        lemma_with_bit(path, position as u64, chosen, j);
    }
}

/// A pass in which some device still takes part is not aborted, and the
/// address it ends with is the address of a device that has the bits chosen
/// so far.
pub proof fn lemma_pass_finds_a_device(bus: StaticBus, run: RunModel)
    requires
        run.position <= 64,
        exists|d: u64| bus.listens(d, run.path, run.position),
    ensures
        bus.carried(run).is_some(),
        bus.carried(run).unwrap().position == 64,
        bus.devices.contains(bus.carried(run).unwrap().path),
        agree_below(bus.carried(run).unwrap().path, run.path, run.position),
    decreases 64 - run.position,
{
    let d = choose|d: u64| bus.listens(d, run.path, run.position);
    if run.position >= 64 {
        lemma_bits_determine(d, run.path);
    } else {
        let id = bus.id_slot(run.path, run.position);
        let complement = bus.complement_slot(run.path, run.position);
        assert(!(id && complement));
        let chosen = run.direction(id, complement).unwrap();
        let next = run.advance(id, complement);
        // some device that takes part has the chosen bit
        let w = if bit_at(d, run.position as u64) == chosen {
            d
        } else if chosen {
            choose|w: u64| bus.listens(w, run.path, run.position) && bit_at(w, run.position as u64)
        } else {
            choose|w: u64| bus.listens(w, run.path, run.position) && !bit_at(w, run.position as u64)
        };
        assert(bus.listens(w, run.path, run.position) && bit_at(w, run.position as u64) == chosen);
        lemma_step_keeps_listener(w, run.path, run.position, chosen);
        assert(bus.listens(w, next.path, next.position));
        lemma_pass_finds_a_device(bus, next);
        let end = bus.carried(next).unwrap();
        assert forall|j: u64| j < run.position implies bit_at(end.path, j) == bit_at(
            run.path,
            j,
        ) by {
            lemma_with_bit(run.path, run.position as u64, chosen, j);
        }
    }
}

/// What holds of a pass that is past the branch it had to retrace, or that
/// had none: it ends at the least of the devices that still take part, and
/// the branch it records is the highest one it left open on its way.
proof fn lemma_rest_of_pass(bus: StaticBus, run: RunModel)
    requires
        run.position <= 64,
        run.last_zero matches Some(z) ==> z < run.position,
        run.seed_branch matches Some(l) ==> l < run.position,
        exists|d: u64| bus.listens(d, run.path, run.position),
    ensures
        bus.carried(run).is_some(),
        bus.devices.contains(bus.carried(run).unwrap().path),
        agree_below(bus.carried(run).unwrap().path, run.path, run.position),
        forall|d: u64| #[trigger]
            bus.listens(d, run.path, run.position) ==> d == bus.carried(run).unwrap().path
                || precedes(bus.carried(run).unwrap().path, d),
        ({
            let end = bus.carried(run).unwrap();
            &&& end.last_zero == run.last_zero || (end.last_zero.is_some() && end.last_zero.unwrap()
                >= run.position)
            &&& end.last_zero matches Some(z) ==> z < 64 && (z >= run.position ==> bus.open_branch(
                end.path,
                z,
            ))
            &&& forall|j: u8|
                run.position <= j && #[trigger] bus.open_branch(end.path, j)
                    ==> end.last_zero.is_some() && j <= end.last_zero.unwrap()
        }),
    decreases 64 - run.position,
{
    lemma_pass_finds_a_device(bus, run);
    let end = bus.carried(run).unwrap();
    let position = run.position;
    if position >= 64 {
        assert forall|d: u64| #[trigger] bus.listens(d, run.path, position) implies d == end.path by {
            lemma_bits_determine(d, run.path);
        }
    } else {
        let id = bus.id_slot(run.path, position);
        let complement = bus.complement_slot(run.path, position);
        let disagree = !id && !complement;
        let chosen = run.direction(id, complement).unwrap();
        let next = run.advance(id, complement);
        lemma_with_bit(run.path, position as u64, chosen, position as u64);
        assert(disagree ==> !chosen);
        let d0 = choose|d: u64| bus.listens(d, run.path, position);
        let w = if bit_at(d0, position as u64) == chosen {
            d0
        } else if chosen {
            choose|w: u64| bus.listens(w, run.path, position) && bit_at(w, position as u64)
        } else {
            choose|w: u64| bus.listens(w, run.path, position) && !bit_at(w, position as u64)
        };
        assert(bus.listens(w, run.path, position) && bit_at(w, position as u64) == chosen);
        lemma_step_keeps_listener(w, run.path, position, chosen);
        assert(bus.listens(w, next.path, next.position));
        lemma_rest_of_pass(bus, next);
        assert(end == bus.carried(next).unwrap());
        assert(bit_at(end.path, position as u64) == chosen);
        assert(agree_below(end.path, run.path, position));
        assert forall|d: u64| #[trigger] bus.listens(d, run.path, position) implies d == end.path
            || precedes(end.path, d) by {
            if bit_at(d, position as u64) == chosen {
                lemma_step_keeps_listener(d, run.path, position, chosen);
                assert(bus.listens(d, next.path, next.position));
            } else {
                assert(disagree);
                assert(differ_at(end.path, d, position));
            }
        }
        assert forall|j: u8| position <= j && #[trigger] bus.open_branch(end.path, j) implies
            end.last_zero.is_some() && j <= end.last_zero.unwrap() by {
            if j == position {
                let d = choose|d: u64| #[trigger]
                    bus.listens(d, end.path, position) && bit_at(d, position as u64);
                assert(bus.listens(d, run.path, position));
                assert(disagree);
                assert(next.last_zero == Some(position));
            }
        }
        if end.last_zero.is_some() && end.last_zero.unwrap() == position {
            assert(next.last_zero == Some(position));
            assert(disagree);
            let d = choose|d: u64| bus.listens(d, run.path, position) && bit_at(d, position as u64);
            assert(bus.listens(d, end.path, position));
        }
    }
}

/// What holds of a pass that retraces the address `a` up to its highest
/// open branch `l`: it keeps the bits of `a` below `l`, takes 1 at `l`, and
/// ends at the least of the devices that do so; the branch it records is
/// the highest open branch of the address it ends at.
proof fn lemma_retrace(bus: StaticBus, run: RunModel, a: u64, l: u8)
    requires
        run.seed_path == a,
        run.seed_branch == Some(l),
        run.position <= l,
        bus.faithful(a, Some(l)),
        agree_below(run.path, a, run.position),
        bus.last_branch_below(a, run.last_zero, run.position),
    ensures
        bus.carried(run).is_some(),
        bus.devices.contains(bus.carried(run).unwrap().path),
        agree_below(bus.carried(run).unwrap().path, a, l),
        bit_at(bus.carried(run).unwrap().path, l as u64),
        forall|d: u64| #[trigger]
            bus.listens(d, a, l) && bit_at(d, l as u64) ==> d == bus.carried(run).unwrap().path
                || precedes(bus.carried(run).unwrap().path, d),
        bus.last_branch_below(
            bus.carried(run).unwrap().path,
            bus.carried(run).unwrap().last_zero,
            64,
        ),
    decreases l - run.position,
{
    let position = run.position;
    let id = bus.id_slot(run.path, position);
    let complement = bus.complement_slot(run.path, position);
    let disagree = !id && !complement;
    assert(bus.listens(a, run.path, position));
    let chosen = run.direction(id, complement).unwrap();
    let next = run.advance(id, complement);
    lemma_with_bit(run.path, position as u64, chosen, position as u64);
    assert forall|j: u64| j < position implies bit_at(next.path, j) == bit_at(run.path, j) by {
        lemma_with_bit(run.path, position as u64, chosen, j);
    }
    if position < l {
        assert(chosen == bit_at(a, position as u64));
        lemma_step_keeps_listener(a, run.path, position, chosen);
        assert(agree_below(next.path, a, next.position));
        // the record follows the open branches of `a`
        assert(bus.open_branch(a, position) <==> disagree && !chosen) by {
            if bus.open_branch(a, position) {
                let d = choose|d: u64| #[trigger]
                    bus.listens(d, a, position) && bit_at(d, position as u64);
                assert(bus.listens(d, run.path, position));
            }
            if disagree && !chosen {
                let d = choose|d: u64|
                    bus.listens(d, run.path, position) && bit_at(d, position as u64);
                assert(bus.listens(d, a, position));
            }
        }
        assert(bus.last_branch_below(a, next.last_zero, next.position)) by {
            assert forall|j: u8|
                j < next.position && #[trigger] bus.open_branch(a, j) implies next.last_zero.is_some()
                && j <= next.last_zero.unwrap() by {
                if j < position {
                    assert(run.last_zero.is_some() && j <= run.last_zero.unwrap());
                }
            }
        }
        lemma_retrace(bus, next, a, l);
    } else {
        // at the branch: `a` has 0 here, another device has 1
        let d1 = choose|d: u64| #[trigger] bus.listens(d, a, l) && bit_at(d, l as u64);
        assert(bus.listens(d1, run.path, position));
        assert(disagree);
        assert(chosen);
        lemma_step_keeps_listener(d1, run.path, position, chosen);
        assert(bus.listens(d1, next.path, next.position));
        lemma_rest_of_pass(bus, next);
        let end = bus.carried(next).unwrap();
        assert(end == bus.carried(run).unwrap());
        assert(agree_below(end.path, a, l));
        assert forall|d: u64| #[trigger] bus.listens(d, a, l) && bit_at(d, l as u64) implies d
            == end.path || precedes(end.path, d) by {
            assert(agree_below(d, run.path, position));
            lemma_step_keeps_listener(d, run.path, position, chosen);
            assert(bus.listens(d, next.path, next.position));
        }
        assert(bus.last_branch_below(end.path, end.last_zero, 64)) by {
            if end.last_zero.is_some() && end.last_zero.unwrap() < next.position {
                let z = end.last_zero.unwrap();
                assert(end.last_zero == run.last_zero);
                assert(bus.open_branch(a, z));
                lemma_same_branches(bus, a, end.path, l, z);
            }
            assert forall|j: u8| j < 64 && #[trigger] bus.open_branch(end.path, j) implies
                end.last_zero.is_some() && j <= end.last_zero.unwrap() by {
                if j < l {
                    lemma_same_branches(bus, end.path, a, l, j);
                    assert(run.last_zero.is_some() && j <= run.last_zero.unwrap());
                }
            }
        }
    }
}

/// Addresses that agree below `limit` have the same open branches there.
proof fn lemma_same_branches(bus: StaticBus, a: u64, b: u64, limit: u8, index: u8)
    requires
        index < limit,
        agree_below(a, b, limit),
        bus.open_branch(a, index),
    ensures
        bus.open_branch(b, index),
{
    let d = choose|d: u64| #[trigger] bus.listens(d, a, index) && bit_at(d, index as u64);
    assert(bus.listens(d, b, index));
}

/// On a bus with at least one device, the first pass finds the device that
/// comes first in the order of the wire, and leaves the highest open
/// branch of its address for the next pass.
pub proof fn lemma_first_pass_finds_least(bus: StaticBus)
    requires
        bus.presence_pulse(),
        bus.devices_valid(),
    ensures
        bus.search_next(None) matches Ok(Some(found)) && {
            &&& bus.faithful(found.0, found.1)
            &&& forall|d: u64| #[trigger]
                bus.devices.contains(d) ==> d == found.0 || precedes(found.0, d)
        },
{
    let run = RunModel::start(0, None);
    let d0 = choose|d: u64| bus.devices.contains(d);
    assert(bus.listens(d0, run.path, run.position));
    lemma_rest_of_pass(bus, run);
    let end = bus.carried(run).unwrap();
    assert forall|d: u64| #[trigger] bus.devices.contains(d) implies d == end.path || precedes(
        end.path,
        d,
    ) by {
        assert(bus.listens(d, run.path, run.position));
    }
}

/// A pass that starts from what the pass before left, the address `a` of a
/// device and its highest open branch `l`, finds the device that comes next
/// after `a` in the order of the wire, and leaves the highest open branch
/// of that address in turn. So passes that are each seeded with the state
/// of the one before find every device once, in the order of the wire.
pub proof fn lemma_next_pass_finds_successor(bus: StaticBus, a: u64, l: u8)
    requires
        bus.devices_valid(),
        bus.faithful(a, Some(l)),
    ensures
        bus.search_next(Some((a, Some(l)))) matches Ok(Some(found)) && {
            &&& bus.faithful(found.0, found.1)
            &&& precedes(a, found.0)
            &&& forall|d: u64| #[trigger]
                bus.devices.contains(d) && precedes(a, d) ==> d == found.0 || precedes(found.0, d)
        },
{
    let run = RunModel::start(a, Some(l));
    assert(bus.listens(a, run.path, run.position));
    lemma_retrace(bus, run, a, l);
    let end = bus.carried(run).unwrap();
    assert(differ_at(a, end.path, l));
    assert forall|d: u64| #[trigger] bus.devices.contains(d) && precedes(a, d) implies d
        == end.path || precedes(end.path, d) by {
        let i = choose|i: u8| #[trigger] differ_at(a, d, i);
        assert(bus.listens(d, a, i));
        assert(bus.open_branch(a, i));
        if i == l {
            assert(bus.listens(d, a, l) && bit_at(d, l as u64));
        } else {
            assert(i < l);
            assert(differ_at(end.path, d, i));
        }
    }
}

/// When a pass leaves no open branch, the next pass returns nothing, and
/// rightly so: the address found last is the last in the order of the
/// wire.
pub proof fn lemma_no_branch_means_last(bus: StaticBus, a: u64)
    requires
        bus.faithful(a, None),
    ensures
        bus.search_next(Some((a, None))) == Ok::<Option<Seed>, ErrorKind>(None),
        forall|d: u64| bus.devices.contains(d) ==> !precedes(a, d),
{
    assert forall|d: u64| bus.devices.contains(d) implies !precedes(a, d) by {
        if precedes(a, d) {
            let i = choose|i: u8| #[trigger] differ_at(a, d, i);
            assert(bus.listens(d, a, i));
            assert(bus.open_branch(a, i));
        }
    }
}

/// The order of the wire is strict: no address comes before itself, and of
/// two addresses at most one comes before the other.
pub proof fn lemma_precedes_is_strict(a: u64, b: u64)
    ensures
        !precedes(a, a),
        !(precedes(a, b) && precedes(b, a)),
{
    if precedes(a, a) {
        let i = choose|i: u8| #[trigger] differ_at(a, a, i);
    }
    if precedes(a, b) && precedes(b, a) {
        let i = choose|i: u8| #[trigger] differ_at(a, b, i);
        let k = choose|k: u8| #[trigger] differ_at(b, a, k);
        if i < k {
            assert(bit_at(b, i as u64) == bit_at(a, i as u64));
        } else if k < i {
            assert(bit_at(a, k as u64) == bit_at(b, k as u64));
        }
    }
}

/// The order of the wire is transitive.
pub proof fn lemma_precedes_is_transitive(a: u64, b: u64, c: u64)
    requires
        precedes(a, b),
        precedes(b, c),
    ensures
        precedes(a, c),
{
    let i = choose|i: u8| #[trigger] differ_at(a, b, i);
    let k = choose|k: u8| #[trigger] differ_at(b, c, k);
    if i < k {
        assert(bit_at(c, i as u64) == bit_at(b, i as u64));
        assert(differ_at(a, c, i));
    } else if k < i {
        assert(bit_at(a, k as u64) == bit_at(b, k as u64));
        assert(differ_at(a, c, k));
    }
}

/// Whatever a pass of the enumeration finds is the address of a device,
/// paired with the highest open branch of that address.
pub proof fn lemma_passes_are_faithful(bus: StaticBus, n: nat)
    requires
        bus.devices_valid(),
        bus.pass(n).is_some(),
    ensures
        bus.faithful(bus.pass(n).unwrap().0, bus.pass(n).unwrap().1),
    decreases n,
{
    if n == 0 {
        lemma_first_pass_finds_least(bus);
    } else {
        let seed = bus.pass((n - 1) as nat).unwrap();
        lemma_passes_are_faithful(bus, (n - 1) as nat);
        lemma_next_pass_finds_successor(bus, seed.0, seed.1.unwrap());
    }
}

/// The enumeration goes up in the order of the wire: a later pass finds a
/// device that comes after the one of every earlier pass. So no device is
/// found twice.
pub proof fn lemma_passes_go_up(bus: StaticBus, m: nat, n: nat)
    requires
        bus.devices_valid(),
        m < n,
        bus.pass(n).is_some(),
    ensures
        bus.pass(m).is_some(),
        precedes(bus.pass(m).unwrap().0, bus.pass(n).unwrap().0),
        bus.pass(m).unwrap().0 != bus.pass(n).unwrap().0,
    decreases n - m,
{
    let before = bus.pass((n - 1) as nat).unwrap();
    lemma_passes_are_faithful(bus, (n - 1) as nat);
    lemma_next_pass_finds_successor(bus, before.0, before.1.unwrap());
    if m + 1 < n {
        lemma_passes_go_up(bus, m, (n - 1) as nat);
        lemma_precedes_is_transitive(
            bus.pass(m).unwrap().0,
            before.0,
            bus.pass(n).unwrap().0,
        );
    }
    lemma_precedes_is_strict(bus.pass(m).unwrap().0, bus.pass(n).unwrap().0);
}

/// The enumeration skips no device: after pass `n`, every device has been
/// found or comes after the one found last.
pub proof fn lemma_passes_skip_nothing(bus: StaticBus, n: nat, d: u64)
    requires
        bus.devices_valid(),
        bus.pass(n).is_some(),
        bus.devices.contains(d),
    ensures
        bus.found_by(d, n) || precedes(bus.pass(n).unwrap().0, d),
    decreases n,
{
    if n == 0 {
        lemma_first_pass_finds_least(bus);
        assert(bus.pass(0).is_some());
    } else {
        let before = bus.pass((n - 1) as nat).unwrap();
        lemma_passes_are_faithful(bus, (n - 1) as nat);
        lemma_next_pass_finds_successor(bus, before.0, before.1.unwrap());
        lemma_passes_skip_nothing(bus, (n - 1) as nat, d);
        if bus.found_by(d, (n - 1) as nat) {
            let m = choose|m: nat|
                m <= n - 1 && #[trigger] bus.pass(m).is_some() && bus.pass(m).unwrap().0 == d;
            assert(m <= n && bus.pass(m).is_some());
        } else {
            assert(bus.pass(n).is_some());
        }
    }
}

/// When a pass of the enumeration leaves no open branch, every device has
/// been found, and the next pass returns nothing.
pub proof fn lemma_enumeration_is_complete(bus: StaticBus, n: nat, d: u64)
    requires
        bus.devices_valid(),
        bus.pass(n).is_some(),
        bus.pass(n).unwrap().1.is_none(),
        bus.devices.contains(d),
    ensures
        bus.found_by(d, n),
        bus.search_next(bus.pass(n)) == Ok::<Option<Seed>, ErrorKind>(None),
        bus.pass(n + 1).is_none(),
{
    lemma_passes_are_faithful(bus, n);
    lemma_no_branch_means_last(bus, bus.pass(n).unwrap().0);
    lemma_passes_skip_nothing(bus, n, d);
}

/// The passes up to number `n` found `n + 1` different devices.
pub proof fn lemma_one_device_per_pass(bus: StaticBus, n: nat)
    requires
        bus.devices_valid(),
        bus.pass(n).is_some(),
    ensures
        bus.found_up_to(n).finite(),
        bus.found_up_to(n).len() == n + 1,
        bus.found_up_to(n).subset_of(bus.devices),
        forall|d: u64| bus.found_up_to(n).contains(d) ==> bus.found_by(d, n),
    decreases n,
{
    lemma_passes_are_faithful(bus, n);
    let found = bus.pass(n).unwrap().0;
    if n == 0 {
        assert(bus.pass(0).is_some());
    } else {
        let earlier = bus.found_up_to((n - 1) as nat);
        lemma_passes_go_up(bus, (n - 1) as nat, n);
        lemma_one_device_per_pass(bus, (n - 1) as nat);
        let prior = (n - 1) as nat;
        assert(!earlier.contains(found)) by {
            if earlier.contains(found) {
                assert(bus.found_by(found, prior));
                let m = choose|m: nat|
                    m <= prior && #[trigger] bus.pass(m).is_some() && bus.pass(m).unwrap().0
                        == found;
                lemma_passes_go_up(bus, m, n);
            }
        }
        assert forall|d: u64| bus.found_up_to(n).contains(d) implies bus.found_by(d, n) by {
            if d == found {
                assert(bus.pass(n).is_some());
            } else {
                assert(earlier.contains(d));
                assert(bus.found_by(d, prior));
                let m = choose|m: nat|
                    m <= prior && #[trigger] bus.pass(m).is_some() && bus.pass(m).unwrap().0 == d;
                assert(m <= n && bus.pass(m).is_some());
            }
        }
    }
}

/// On a bus with finitely many devices, at least one of them, the
/// enumeration ends: one of the first passes, as many as there are devices,
/// leaves no open branch, and by then every device has been found once.
pub proof fn lemma_enumeration_ends(bus: StaticBus)
    requires
        bus.devices.finite(),
        bus.presence_pulse(),
        bus.devices_valid(),
    ensures
        exists|n: nat|
            n < bus.devices.len() && #[trigger] bus.pass(n).is_some() && bus.pass(
                n,
            ).unwrap().1.is_none(),
{
    lemma_enumeration_ends_by(bus, bus.devices.len());
    let last = bus.devices.len();
    if bus.pass(last).is_some() {
        lemma_one_device_per_pass(bus, last);
        vstd::set_lib::lemma_len_subset(bus.found_up_to(last), bus.devices);
    }
    let n = choose|n: nat|
        n <= last && #[trigger] bus.pass(n).is_some() && bus.pass(n).unwrap().1.is_none();
    lemma_one_device_per_pass(bus, n);
    vstd::set_lib::lemma_len_subset(bus.found_up_to(n), bus.devices);
}

/// Up to pass `n`, either the enumeration has ended or it still goes on.
proof fn lemma_enumeration_ends_by(bus: StaticBus, n: nat)
    requires
        bus.presence_pulse(),
        bus.devices_valid(),
    ensures
        bus.pass(n).is_some() || exists|m: nat|
            m <= n && #[trigger] bus.pass(m).is_some() && bus.pass(m).unwrap().1.is_none(),
    decreases n,
{
    if n == 0 {
        lemma_first_pass_finds_least(bus);
    } else {
        lemma_enumeration_ends_by(bus, (n - 1) as nat);
        let before = bus.pass((n - 1) as nat);
        if before.is_some() {
            lemma_passes_are_faithful(bus, (n - 1) as nat);
            if before.unwrap().1.is_some() {
                lemma_next_pass_finds_successor(bus, before.unwrap().0, before.unwrap().1.unwrap());
            } else {
                assert((n - 1) as nat <= n && bus.pass((n - 1) as nat).is_some());
            }
        } else {
            let m = choose|m: nat|
                m <= n - 1 && #[trigger] bus.pass(m).is_some() && bus.pass(m).unwrap().1.is_none();
            assert(m <= n && bus.pass(m).is_some());
        }
    }
}

} // verus!
