//! The per-statement register pool: an availability bitmap over the five
//! allocatable registers. One manager is created for each statement's code
//! generation and discarded afterwards, so no register stays live across a
//! statement boundary.

use vstd::prelude::*;

use crate::ast::{CompileError, Location};

verus! {

/// How many registers the manager tracks.
pub const REGISTER_COUNT: usize = 5;

/// Allocation state at the specification level: one flag per register,
/// `true` meaning occupied.
pub open spec fn all_free_regs() -> Seq<bool> {
    seq![false, false, false, false, false]
}

/// What a successful allocation does: hand out the lowest-index free
/// register and mark it occupied; `None` when all five are occupied.
pub open spec fn spec_request(regs: Seq<bool>) -> Option<(usize, Seq<bool>)> {
    if !regs[0] {
        Some((0usize, regs.update(0, true)))
    } else if !regs[1] {
        Some((1usize, regs.update(1, true)))
    } else if !regs[2] {
        Some((2usize, regs.update(2, true)))
    } else if !regs[3] {
        Some((3usize, regs.update(3, true)))
    } else if !regs[4] {
        Some((4usize, regs.update(4, true)))
    } else {
        None
    }
}

/// What releasing register `n` does: clear its flag if it was held;
/// releasing a register that is not held is the double-free failure, and a
/// register the manager does not track is never held.
pub open spec fn spec_free(regs: Seq<bool>, n: int) -> Result<Seq<bool>, CompileError> {
    if 0 <= n < 5 && regs[n] {
        Ok(regs.update(n, false))
    } else {
        Err(CompileError::DoubleFreeError)
    }
}

/// The register pool of one statement's code generation.
pub struct LocManager {
    bitmap: u32,
}

impl View for LocManager {
    type V = Seq<bool>;

    /// Bit `i` of the bitmap says whether register `i` is occupied.
    closed spec fn view(&self) -> Seq<bool> {
        Seq::new(5, |i: int| self.bitmap >> (i as u32) & 1u32 == 1u32)
    }
}

impl LocManager {
    /// A fresh manager with every register free.
    pub fn new() -> (r: Self)
        ensures
            r@ == all_free_regs(),
    {
        let r = LocManager { bitmap: 0 };
        proof {
            assert(forall|j: u32| !(#[trigger] (0u32 >> j) & 1u32 == 1u32)) by (bit_vector);
            assert(r@ =~= all_free_regs());
        }
        r
    }

    /// Whether register `l` is currently free.
    pub fn is_free(&self, l: Location) -> (r: bool)
        requires
            l matches Location::Register(n) && n < REGISTER_COUNT,
        ensures
            r == !self@[l->Register_0 as int],
    {
        match l {
            Location::Register(n) => {
                let b = self.bitmap & (1u32 << (n as u32)) == 0u32;
                proof {
                    let bm = self.bitmap;
                    let j = n as u32;
                    assert(j < 5 ==> ((bm & (1u32 << j) == 0u32) == !(bm >> j & 1u32 == 1u32)))
                        by (bit_vector);
                }
                b
            },
            Location::StackIndex(_) => vstd::pervasive::unreached(),
        }
    }

    /// Hand out the lowest-index free register, marking it occupied;
    /// `None` when all five are occupied (the caller reports
    /// `OutOfRegistersError`).
    pub fn request(&mut self) -> (r: Option<Location>)
        ensures
            match r {
                Some(l) => {
                    &&& spec_request(old(self)@) matches Some((n, regs2))
                        && l == Location::Register(n) && final(self)@ == regs2
                },
                None => spec_request(old(self)@) is None && final(self)@ == old(self)@,
            },
    {
        let mut i: usize = 0;
        while i < REGISTER_COUNT
            invariant
                i <= 5,
                self == old(self),
                forall|j: int| 0 <= j < i ==> old(self)@[j],
            decreases 5 - i,
        {
            if self.is_free(Location::Register(i)) {
                let ghost before = self@;
                self.bitmap = self.bitmap | (1u32 << (i as u32));
                proof {
                    let bm = old(self).bitmap;
                    let j = i as u32;
                    assert forall|k: int| 0 <= k < 5 implies (self@[k] == before.update(
                        i as int,
                        true,
                    )[k]) by {
                        let ku = k as u32;
                        assert(ku < 5 && j < 5 ==> ((bm | (1u32 << j)) >> ku & 1u32 == 1u32) == (
                        if ku == j {
                            true
                        } else {
                            bm >> ku & 1u32 == 1u32
                        })) by (bit_vector);
                    }
                    assert(self@ =~= before.update(i as int, true));
                }
                return Some(Location::Register(i));
            }
            i = i + 1;
        }
        None
    }

    /// Release register `l`; releasing one that is not held fails with
    /// `DoubleFreeError` and changes nothing.
    pub fn free(&mut self, l: Location) -> (r: Result<(), CompileError>)
        requires
            l is Register,
        ensures
            match r {
                Ok(()) => spec_free(old(self)@, l->Register_0 as int) == Ok::<
                    Seq<bool>,
                    CompileError,
                >(final(self)@),
                Err(e) => {
                    &&& spec_free(old(self)@, l->Register_0 as int) == Err::<
                        Seq<bool>,
                        CompileError,
                    >(e)
                    &&& final(self)@ == old(self)@
                },
            },
    {
        match l {
            Location::Register(n) => {
                if n < REGISTER_COUNT && !self.is_free(Location::Register(n)) {
                    let ghost before = self@;
                    self.bitmap = self.bitmap & !(1u32 << (n as u32));
                    proof {
                        let bm = old(self).bitmap;
                        let j = n as u32;
                        assert forall|k: int| 0 <= k < 5 implies (self@[k] == before.update(
                            n as int,
                            false,
                        )[k]) by {
                            let ku = k as u32;
                            assert(ku < 5 && j < 5 ==> ((bm & !(1u32 << j)) >> ku & 1u32 == 1u32)
                                == (if ku == j {
                                false
                            } else {
                                bm >> ku & 1u32 == 1u32
                            })) by (bit_vector);
                        }
                        assert(self@ =~= before.update(n as int, false));
                    }
                    Ok(())
                } else {
                    Err(CompileError::DoubleFreeError)
                }
            },
            Location::StackIndex(_) => vstd::pervasive::unreached(),
        }
    }
}

} // verus!
