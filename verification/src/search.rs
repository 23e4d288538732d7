//! The search that finds the addresses of the devices on the bus, one
//! address per pass.
//!
//! A pass walks the 64 bits of an address from the lowest. For each bit the
//! driver issues two read slots and hands their levels to `resolve`, which
//! answers with the bit to write back. Where devices disagree the pass takes
//! the 0-branch, except that it retraces the pass before it up to that
//! pass's last unresolved branch and takes the 1-branch there.

use crate::address::{checksum_holds, DeviceAddress};
use crate::error::ErrorKind;
use vstd::prelude::*;

verus! {

/// Number of bits in an address.
pub const ADDRESS_BITS: u8 = 64;

/// Bit `index` of `value`; bit 0 is the first on the wire.
pub open spec fn bit_at(value: u64, index: u64) -> bool {
    (value >> index) & 1 == 1
}

/// `value` with bit `index` replaced by `bit`.
pub open spec fn with_bit(value: u64, index: u64, bit: bool) -> u64 {
    if bit {
        value | (1u64 << index)
    } else {
        value & !(1u64 << index)
    }
}

/// `with_bit` replaces the one bit and keeps the others.
pub proof fn lemma_with_bit(value: u64, index: u64, bit: bool, other: u64)
    requires
        index < 64,
        other < 64,
    ensures
        bit_at(with_bit(value, index, bit), other) == if other == index {
            bit
        } else {
            bit_at(value, other)
        },
{
    assert(index < 64 && other < 64 ==> (((value | (1u64 << index)) >> other) & 1 == 1) == (other
        == index || (value >> other) & 1 == 1)) by (bit_vector);
    assert(index < 64 && other < 64 ==> (((value & !(1u64 << index)) >> other) & 1 == 1) == (other
        != index && (value >> other) & 1 == 1)) by (bit_vector);
}

/// The outcome of the reset and presence phase: `BusTimeout` when no device
/// answered the reset pulse within the response window.
pub open spec fn presence_outcome(pulse_seen: bool) -> Result<(), ErrorKind> {
    if pulse_seen {
        Ok(())
    } else {
        Err(ErrorKind::BusTimeout)
    }
}

/// Judges the reset and presence phase from whether a presence pulse was
/// seen within the response window.
pub fn presence(pulse_seen: bool) -> (result: Result<(), ErrorKind>)
    ensures
        result == presence_outcome(pulse_seen),
{
    if pulse_seen {
        Ok(())
    } else {
        Err(ErrorKind::BusTimeout)
    }
}

/// What a pass leaves for the next one: the address it found and the index
/// of the last bit at which it took the 0-branch of a disagreement.
#[derive(Clone, Copy, Debug)]
pub struct SearchState {
    address: u64,
    last_discrepancy: Option<u8>,
}

impl SearchState {
    #[verifier::type_invariant]
    spec fn in_range(self) -> bool {
        self.last_discrepancy matches Some(index) ==> index < ADDRESS_BITS
    }

    /// The address that the pass found.
    pub closed spec fn path(self) -> u64 {
        self.address
    }

    /// The last unresolved branch; `None` when every branch has been taken.
    pub closed spec fn branch(self) -> Option<u8> {
        self.last_discrepancy
    }

    /// The address that the pass found.
    pub fn address(&self) -> (address: u64)
        ensures
            address == self.path(),
    {
        self.address
    }

    /// The index of the last unresolved branch, which is below 64.
    pub fn last_discrepancy(&self) -> (index: Option<u8>)
        ensures
            index == self.branch(),
            index matches Some(i) ==> i < ADDRESS_BITS,
    {
        proof {
            use_type_invariant(self);
        }
        self.last_discrepancy
    }

    /// Whether the enumeration is over: no branch is left to take.
    pub fn is_exhausted(&self) -> (exhausted: bool)
        ensures
            exhausted == self.branch().is_none(),
    {
        self.last_discrepancy.is_none()
    }
}

/// What a pass in progress stands for.
pub struct RunModel {
    /// The address found by the pass before this one.
    pub seed_path: u64,
    /// The last unresolved branch of the pass before this one; `None` for a
    /// first pass.
    pub seed_branch: Option<u8>,
    /// The index of the next bit to resolve; 64 when the pass is complete.
    pub position: u8,
    /// The bits chosen so far; the bits from `position` on are not chosen
    /// yet.
    pub path: u64,
    /// The last bit at which this pass took the 0-branch of a disagreement.
    pub last_zero: Option<u8>,
}

impl RunModel {
    /// The model of a pass that has resolved no bit yet.
    pub open spec fn start(seed_path: u64, seed_branch: Option<u8>) -> RunModel {
        RunModel { seed_path, seed_branch, position: 0, path: 0, last_zero: None }
    }

    /// The branch taken when the devices disagree on the current bit: the
    /// bit of the pass before below its last unresolved branch, 1 at that
    /// branch, 0 above it and in a first pass.
    pub open spec fn branch_choice(self) -> bool {
        match self.seed_branch {
            Some(branch) => if self.position < branch {
                bit_at(self.seed_path, self.position as u64)
            } else {
                self.position == branch
            },
            None => false,
        }
    }

    /// The bit to write back for the levels of the two read slots: none
    /// when both stayed high, the bit that all devices share when the slots
    /// differ, the branch choice when both were pulled low.
    pub open spec fn direction(self, id: bool, complement: bool) -> Option<bool> {
        if id && complement {
            None
        } else if id != complement {
            Some(id)
        } else {
            Some(self.branch_choice())
        }
    }

    /// The pass after the current bit is resolved to `direction(..)`.
    pub open spec fn advance(self, id: bool, complement: bool) -> RunModel
        recommends
            self.direction(id, complement).is_some(),
    {
        let chosen = self.direction(id, complement).unwrap();
        RunModel {
            seed_path: self.seed_path,
            seed_branch: self.seed_branch,
            position: (self.position + 1) as u8,
            path: with_bit(self.path, self.position as u64, chosen),
            last_zero: if !id && !complement && !chosen {
                Some(self.position)
            } else {
                self.last_zero
            },
        }
    }
}

/// One pass of the search, from its first bit to its last.
#[derive(Clone, Copy, Debug)]
pub struct SearchRun {
    seed_path: u64,
    seed_branch: Option<u8>,
    position: u8,
    path: u64,
    last_zero: Option<u8>,
}

impl View for SearchRun {
    type V = RunModel;

    closed spec fn view(&self) -> RunModel {
        RunModel {
            seed_path: self.seed_path,
            seed_branch: self.seed_branch,
            position: self.position,
            path: self.path,
            last_zero: self.last_zero,
        }
    }
}

impl SearchRun {
    #[verifier::type_invariant]
    spec fn in_range(self) -> bool {
        &&& self.position <= ADDRESS_BITS
        &&& self.last_zero matches Some(index) ==> index < self.position
    }

    /// Starts a pass. With no state it is the first pass; with the state
    /// that the pass before returned it is the next one, and there is none
    /// when that state has no branch left.
    pub fn begin(seed: Option<&SearchState>) -> (run: Option<SearchRun>)
        ensures
            match seed {
                None => run.is_some() && run.unwrap()@ == RunModel::start(0, None),
                Some(state) => match state.branch() {
                    None => run.is_none(),
                    Some(branch) => run.is_some() && run.unwrap()@ == RunModel::start(
                        state.path(),
                        Some(branch),
                    ),
                },
            },
    {
        match seed {
            None => Some(
                SearchRun { seed_path: 0, seed_branch: None, position: 0, path: 0, last_zero: None },
            ),
            Some(state) => match state.last_discrepancy {
                None => None,
                Some(branch) => Some(
                    SearchRun {
                        seed_path: state.address,
                        seed_branch: Some(branch),
                        position: 0,
                        path: 0,
                        last_zero: None,
                    },
                ),
            },
        }
    }

    /// The index of the next bit to resolve, at most 64.
    pub fn position(&self) -> (position: u8)
        ensures
            position == self@.position,
            position <= ADDRESS_BITS,
    {
        proof {
            use_type_invariant(self);
        }
        self.position
    }

    /// Whether all 64 bits are resolved.
    pub fn is_complete(&self) -> (complete: bool)
        ensures
            complete == (self@.position == ADDRESS_BITS),
    {
        self.position == ADDRESS_BITS
    }

    /// Resolves the current bit from the levels of the two read slots and
    /// returns the bit to write back. When both slots stayed high no device
    /// answered: the pass is aborted with `BusConflict` and left as it was.
    pub fn resolve(&mut self, id: bool, complement: bool) -> (result: Result<bool, ErrorKind>)
        requires
            old(self)@.position < ADDRESS_BITS,
        ensures
            match old(self)@.direction(id, complement) {
                Some(chosen) => result == Ok::<bool, ErrorKind>(chosen) && final(self)@ == old(
                    self,
                )@.advance(id, complement),
                None => result == Err::<bool, ErrorKind>(ErrorKind::BusConflict) && final(self)@
                    == old(self)@,
            },
    {
        proof {
            use_type_invariant(&*self);
        }
        if id && complement {
            return Err(ErrorKind::BusConflict);
        }
        let position: u8 = self.position;
        let disagreement = !id && !complement;
        let chosen = if !disagreement {
            id
        } else {
            match self.seed_branch {
                Some(branch) => if position < branch {
                    (self.seed_path >> (position as u64)) & 1 == 1
                } else {
                    position == branch
                },
                None => false,
            }
        };
        let mask: u64 = 1u64 << (position as u64);
        let path: u64 = if chosen {
            self.path | mask
        } else {
            self.path & !mask
        };
        let last_zero = if disagreement && !chosen {
            Some(position)
        } else {
            self.last_zero
        };
        *self = SearchRun {
            seed_path: self.seed_path,
            seed_branch: self.seed_branch,
            position: position + 1,
            path,
            last_zero,
        };
        Ok(chosen)
    }

    /// Closes a complete pass. The address is returned, with the state for
    /// the next pass, if its checksum holds; if not it is discarded with
    /// `ChecksumMismatch`.
    pub fn finish(&self) -> (result: Result<(DeviceAddress, SearchState), ErrorKind>)
        requires
            self@.position == ADDRESS_BITS,
        ensures
            result.is_ok() <==> checksum_holds(self@.path),
            checksum_holds(self@.path) ==> result.is_ok() && result.unwrap().0@ == self@.path
                && result.unwrap().1.path() == self@.path && result.unwrap().1.branch()
                == self@.last_zero,
            !checksum_holds(self@.path) ==> result == Err::<(DeviceAddress, SearchState), ErrorKind>(
                ErrorKind::ChecksumMismatch,
            ),
    {
        proof {
            use_type_invariant(self);
        }
        match DeviceAddress::from_raw(self.path) {
            Ok(address) => Ok(
                (address, SearchState { address: self.path, last_discrepancy: self.last_zero }),
            ),
            Err(kind) => Err(kind),
        }
    }
}

} // verus!
