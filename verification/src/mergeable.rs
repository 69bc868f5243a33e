//! A generic wrapper that makes a foreign value mergeable.
//!
//! Many value types carry no merge semantics of their own. [`Mergable`] pairs
//! such a value with a caller-chosen binary strategy and implements both
//! merge contracts by applying that strategy to the two inner values. The
//! strategy is fixed at construction: every value a merge produces carries
//! the left-hand operand's strategy, never the right-hand one. Outside of
//! merging, the wrapper hands the inner value out for reading and replaces it
//! on request, and for an unsigned inner value it forwards the arithmetic and
//! bitwise operators, each producing a new wrapper with the same strategy or
//! updating the inner value in place.

use vstd::prelude::*;

use crate::Merge;
use crate::MergeError;
use crate::MergeMut;

verus! {

/// A caller-supplied binary merge strategy for values of type `T`. The two
/// spec functions say when the strategy may be applied and which outputs it
/// may produce; `combine` is the operation itself.
pub trait MergeStrategy<T>: Sized {
    /// When the strategy may be applied to the two values.
    spec fn combine_req(&self, a: &T, b: &T) -> bool;

    /// Which outputs the strategy may produce for the two values.
    spec fn combine_rel(&self, a: &T, b: &T, out: T) -> bool;

    /// Combine two values into one.
    fn combine(&self, a: &T, b: &T) -> (r: T)
        requires
            self.combine_req(a, b),
        ensures
            self.combine_rel(a, b, r),
    ;
}

/// A value paired with the strategy that merges it. The pair is immutable as
/// a unit: no operation swaps the strategy out.
pub struct Mergable<T, S: MergeStrategy<T>> {
    inner: T,
    strategy: S,
}

impl<T, S: MergeStrategy<T>> Mergable<T, S> {
    /// The wrapped value.
    pub closed spec fn spec_inner(self) -> T {
        self.inner
    }

    /// The strategy fixed at construction.
    pub closed spec fn spec_strategy(self) -> S {
        self.strategy
    }

    /// Wrap a value together with the strategy that will merge it.
    pub fn new(inner: T, strategy: S) -> (r: Self)
        ensures
            r.spec_inner() == inner,
            r.spec_strategy() == strategy,
    {
        Mergable { inner, strategy }
    }

    /// Read access to the inner value.
    pub fn value(&self) -> (r: &T)
        ensures
            *r == self.spec_inner(),
    {
        &self.inner
    }

    /// Replace the inner value; the strategy is kept.
    pub fn set_value(&mut self, v: T)
        ensures
            final(self).spec_inner() == v,
            final(self).spec_strategy() == old(self).spec_strategy(),
    {
        self.inner = v;
    }

    /// Give the inner value up, consuming the wrapper.
    pub fn into_inner(self) -> (r: T)
        ensures
            r == self.spec_inner(),
    {
        self.inner
    }
}

impl<T: Clone, S: MergeStrategy<T> + Copy> Clone for Mergable<T, S> {
    /// A wrapper clones to a wrapper holding a clone of the inner value and
    /// the same strategy.
    fn clone(&self) -> (res: Self)
        ensures
            vstd::pervasive::cloned::<T>(self.spec_inner(), res.spec_inner()),
            res.spec_strategy() == self.spec_strategy(),
    {
        Mergable { inner: self.inner.clone(), strategy: self.strategy }
    }
}

/// Merge for the wrapper: the strategy combines the two inner values, and
/// the result carries the left-hand operand's strategy. Never fails; neither
/// input is changed.
impl<T, S: MergeStrategy<T> + Copy> Merge for Mergable<T, S> {
    open spec fn merge_req(&self, other: &Self) -> bool {
        self.spec_strategy().combine_req(&self.spec_inner(), &other.spec_inner())
    }

    open spec fn merge_rel(&self, other: &Self, out: Result<Self, MergeError>) -> bool {
        match out {
            Ok(m) => m.spec_strategy() == self.spec_strategy()
                && self.spec_strategy().combine_rel(
                &self.spec_inner(),
                &other.spec_inner(),
                m.spec_inner(),
            ),
            Err(_) => false,
        }
    }

    fn merge(&self, other: &Self) -> (r: Result<Self, MergeError>) {
        let inner = self.strategy.combine(&self.inner, &other.inner);
        Ok(Mergable { inner, strategy: self.strategy })
    }
}

/// In-place merge for the wrapper: the strategy combines the two inner
/// values and the result overwrites the left-hand inner value; the strategy
/// is unchanged.
impl<T, S: MergeStrategy<T> + Copy> MergeMut for Mergable<T, S> {
    open spec fn merge_mut_req(&self, other: &Self) -> bool {
        self.spec_strategy().combine_req(&self.spec_inner(), &other.spec_inner())
    }

    open spec fn merge_mut_rel(&self, other: &Self, next: Self, r: Result<(), MergeError>) -> bool {
        &&& r is Ok
        &&& next.spec_strategy() == self.spec_strategy()
        &&& self.spec_strategy().combine_rel(
            &self.spec_inner(),
            &other.spec_inner(),
            next.spec_inner(),
        )
    }

    fn merge_mut(&mut self, other: &Self) -> (r: Result<(), MergeError>) {
        let inner = self.strategy.combine(&self.inner, &other.inner);
        self.inner = inner;
        Ok(())
    }
}

impl<S: MergeStrategy<u32> + Copy> Mergable<u32, S> {
    /// Forward addition to the inner value, keeping the strategy.
    pub fn add(self, rhs: u32) -> (r: Self)
        requires
            self.spec_inner() + rhs <= u32::MAX,
        ensures
            r.spec_inner() == self.spec_inner() + rhs,
            r.spec_strategy() == self.spec_strategy(),
    {
        Mergable { inner: self.inner + rhs, strategy: self.strategy }
    }

    /// Forward subtraction to the inner value, keeping the strategy.
    pub fn sub(self, rhs: u32) -> (r: Self)
        requires
            rhs <= self.spec_inner(),
        ensures
            r.spec_inner() == self.spec_inner() - rhs,
            r.spec_strategy() == self.spec_strategy(),
    {
        Mergable { inner: self.inner - rhs, strategy: self.strategy }
    }

    /// Forward multiplication to the inner value, keeping the strategy.
    pub fn mul(self, rhs: u32) -> (r: Self)
        requires
            self.spec_inner() * rhs <= u32::MAX,
        ensures
            r.spec_inner() == self.spec_inner() * rhs,
            r.spec_strategy() == self.spec_strategy(),
    {
        Mergable { inner: self.inner * rhs, strategy: self.strategy }
    }

    /// Forward division to the inner value, keeping the strategy.
    pub fn div(self, rhs: u32) -> (r: Self)
        requires
            rhs != 0,
        ensures
            r.spec_inner() == self.spec_inner() / rhs,
            r.spec_strategy() == self.spec_strategy(),
    {
        Mergable { inner: self.inner / rhs, strategy: self.strategy }
    }

    /// Forward the remainder to the inner value, keeping the strategy.
    pub fn rem(self, rhs: u32) -> (r: Self)
        requires
            rhs != 0,
        ensures
            r.spec_inner() == self.spec_inner() % rhs,
            r.spec_strategy() == self.spec_strategy(),
    {
        Mergable { inner: self.inner % rhs, strategy: self.strategy }
    }

    /// Forward bitwise and to the inner value, keeping the strategy.
    pub fn bit_and(self, rhs: u32) -> (r: Self)
        ensures
            r.spec_inner() == self.spec_inner() & rhs,
            r.spec_strategy() == self.spec_strategy(),
    {
        Mergable { inner: self.inner & rhs, strategy: self.strategy }
    }

    /// Forward bitwise or to the inner value, keeping the strategy.
    pub fn bit_or(self, rhs: u32) -> (r: Self)
        ensures
            r.spec_inner() == self.spec_inner() | rhs,
            r.spec_strategy() == self.spec_strategy(),
    {
        Mergable { inner: self.inner | rhs, strategy: self.strategy }
    }

    /// Forward bitwise exclusive or to the inner value, keeping the strategy.
    pub fn bit_xor(self, rhs: u32) -> (r: Self)
        ensures
            r.spec_inner() == self.spec_inner() ^ rhs,
            r.spec_strategy() == self.spec_strategy(),
    {
        Mergable { inner: self.inner ^ rhs, strategy: self.strategy }
    }

    /// Forward bitwise negation to the inner value, keeping the strategy.
    pub fn bit_not(self) -> (r: Self)
        ensures
            r.spec_inner() == !self.spec_inner(),
            r.spec_strategy() == self.spec_strategy(),
    {
        Mergable { inner: !self.inner, strategy: self.strategy }
    }

    /// Forward a left shift to the inner value, keeping the strategy.
    pub fn shl(self, rhs: u32) -> (r: Self)
        requires
            rhs < 32,
        ensures
            r.spec_inner() == self.spec_inner() << rhs,
            r.spec_strategy() == self.spec_strategy(),
    {
        Mergable { inner: self.inner << rhs, strategy: self.strategy }
    }

    /// Forward a right shift to the inner value, keeping the strategy.
    pub fn shr(self, rhs: u32) -> (r: Self)
        requires
            rhs < 32,
        ensures
            r.spec_inner() == self.spec_inner() >> rhs,
            r.spec_strategy() == self.spec_strategy(),
    {
        Mergable { inner: self.inner >> rhs, strategy: self.strategy }
    }

    /// Add to the inner value in place, keeping the strategy.
    pub fn add_assign(&mut self, rhs: u32)
        requires
            old(self).spec_inner() + rhs <= u32::MAX,
        ensures
            final(self).spec_inner() == old(self).spec_inner() + rhs,
            final(self).spec_strategy() == old(self).spec_strategy(),
    {
        self.inner = self.inner + rhs;
    }

    /// Subtract from the inner value in place, keeping the strategy.
    pub fn sub_assign(&mut self, rhs: u32)
        requires
            rhs <= old(self).spec_inner(),
        ensures
            final(self).spec_inner() == old(self).spec_inner() - rhs,
            final(self).spec_strategy() == old(self).spec_strategy(),
    {
        self.inner = self.inner - rhs;
    }

    /// Multiply the inner value in place, keeping the strategy.
    pub fn mul_assign(&mut self, rhs: u32)
        requires
            old(self).spec_inner() * rhs <= u32::MAX,
        ensures
            final(self).spec_inner() == old(self).spec_inner() * rhs,
            final(self).spec_strategy() == old(self).spec_strategy(),
    {
        self.inner = self.inner * rhs;
    }

    /// Divide the inner value in place, keeping the strategy.
    pub fn div_assign(&mut self, rhs: u32)
        requires
            rhs != 0,
        ensures
            final(self).spec_inner() == old(self).spec_inner() / rhs,
            final(self).spec_strategy() == old(self).spec_strategy(),
    {
        self.inner = self.inner / rhs;
    }

    /// Replace the inner value by its remainder in place, keeping the strategy.
    pub fn rem_assign(&mut self, rhs: u32)
        requires
            rhs != 0,
        ensures
            final(self).spec_inner() == old(self).spec_inner() % rhs,
            final(self).spec_strategy() == old(self).spec_strategy(),
    {
        self.inner = self.inner % rhs;
    }

    /// Bitwise-and the inner value in place, keeping the strategy.
    pub fn bit_and_assign(&mut self, rhs: u32)
        ensures
            final(self).spec_inner() == old(self).spec_inner() & rhs,
            final(self).spec_strategy() == old(self).spec_strategy(),
    {
        self.inner = self.inner & rhs;
    }

    /// Bitwise-or the inner value in place, keeping the strategy.
    pub fn bit_or_assign(&mut self, rhs: u32)
        ensures
            final(self).spec_inner() == old(self).spec_inner() | rhs,
            final(self).spec_strategy() == old(self).spec_strategy(),
    {
        self.inner = self.inner | rhs;
    }

    /// Bitwise-exclusive-or the inner value in place, keeping the strategy.
    pub fn bit_xor_assign(&mut self, rhs: u32)
        ensures
            final(self).spec_inner() == old(self).spec_inner() ^ rhs,
            final(self).spec_strategy() == old(self).spec_strategy(),
    {
        self.inner = self.inner ^ rhs;
    }

    /// Shift the inner value left in place, keeping the strategy.
    pub fn shl_assign(&mut self, rhs: u32)
        requires
            rhs < 32,
        ensures
            final(self).spec_inner() == old(self).spec_inner() << rhs,
            final(self).spec_strategy() == old(self).spec_strategy(),
    {
        self.inner = self.inner << rhs;
    }

    /// Shift the inner value right in place, keeping the strategy.
    pub fn shr_assign(&mut self, rhs: u32)
        requires
            rhs < 32,
        ensures
            final(self).spec_inner() == old(self).spec_inner() >> rhs,
            final(self).spec_strategy() == old(self).spec_strategy(),
    {
        self.inner = self.inner >> rhs;
    }
}

} // verus!
