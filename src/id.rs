use vstd::prelude::*;
use vstd::std_specs::hash::obeys_key_model;

verus! {

/// Identifiers of vertices and parallel edges: linearly ordered, hashable
/// values with a first element and a successor operation.
pub trait Id: Sized + Copy + Eq + std::hash::Hash {
    /// Position of the identifier in the type's linear order.
    spec fn rank(&self) -> int;

    /// Rank of the first identifier.
    spec fn min_rank() -> int;

    /// Rank of the last identifier.
    spec fn max_rank() -> int;

    /// Ranks lie between the bounds, tell identifiers apart, and identifiers
    /// behave as keys of a hash table.
    proof fn lemma_id_laws(a: &Self, b: &Self)
        ensures
            Self::min_rank() <= a.rank() <= Self::max_rank(),
            a.rank() == b.rank() ==> *a == *b,
            obeys_key_model::<Self>(),
    ;

    /// Identifiers behave as keys of a hash table.
    proof fn lemma_key_model()
        ensures
            obeys_key_model::<Self>(),
    ;

    /// The first identifier of the type.
    fn default() -> (r: Self)
        ensures
            r.rank() == Self::min_rank(),
    ;

    /// Advances the identifier to its successor.
    fn increment(&mut self)
        requires
            old(self).rank() < Self::max_rank(),
        ensures
            final(self).rank() == old(self).rank() + 1,
    ;

    /// Whether `self` comes no later than `other`.
    fn no_later_than(&self, other: &Self) -> (r: bool)
        ensures
            r == (self.rank() <= other.rank()),
    ;

    /// Whether `self` is the last identifier of the type.
    fn is_max(&self) -> (r: bool)
        ensures
            r == (self.rank() == Self::max_rank()),
    ;
}

impl Id for u8 {
    open spec fn rank(&self) -> int {
        *self as int
    }

    open spec fn min_rank() -> int {
        u8::MIN as int
    }

    open spec fn max_rank() -> int {
        u8::MAX as int
    }

    proof fn lemma_id_laws(a: &Self, b: &Self) {
        broadcast use vstd::std_specs::hash::group_hash_axioms;
    }

    proof fn lemma_key_model() {
        broadcast use vstd::std_specs::hash::group_hash_axioms;
    }

    fn default() -> (r: Self) {
        u8::MIN
    }

    fn increment(&mut self) {
        *self = *self + 1;
    }

    fn no_later_than(&self, other: &Self) -> (r: bool) {
        *self <= *other
    }

    fn is_max(&self) -> (r: bool) {
        *self == u8::MAX
    }
}

impl Id for u16 {
    open spec fn rank(&self) -> int {
        *self as int
    }

    open spec fn min_rank() -> int {
        u16::MIN as int
    }

    open spec fn max_rank() -> int {
        u16::MAX as int
    }

    proof fn lemma_id_laws(a: &Self, b: &Self) {
        broadcast use vstd::std_specs::hash::group_hash_axioms;
    }

    proof fn lemma_key_model() {
        broadcast use vstd::std_specs::hash::group_hash_axioms;
    }

    fn default() -> (r: Self) {
        u16::MIN
    }

    fn increment(&mut self) {
        *self = *self + 1;
    }

    fn no_later_than(&self, other: &Self) -> (r: bool) {
        *self <= *other
    }

    fn is_max(&self) -> (r: bool) {
        *self == u16::MAX
    }
}

impl Id for u32 {
    open spec fn rank(&self) -> int {
        *self as int
    }

    open spec fn min_rank() -> int {
        u32::MIN as int
    }

    open spec fn max_rank() -> int {
        u32::MAX as int
    }

    proof fn lemma_id_laws(a: &Self, b: &Self) {
        broadcast use vstd::std_specs::hash::group_hash_axioms;
    }

    proof fn lemma_key_model() {
        broadcast use vstd::std_specs::hash::group_hash_axioms;
    }

    fn default() -> (r: Self) {
        u32::MIN
    }

    fn increment(&mut self) {
        *self = *self + 1;
    }

    fn no_later_than(&self, other: &Self) -> (r: bool) {
        *self <= *other
    }

    fn is_max(&self) -> (r: bool) {
        *self == u32::MAX
    }
}

impl Id for u64 {
    open spec fn rank(&self) -> int {
        *self as int
    }

    open spec fn min_rank() -> int {
        u64::MIN as int
    }

    open spec fn max_rank() -> int {
        u64::MAX as int
    }

    proof fn lemma_id_laws(a: &Self, b: &Self) {
        broadcast use vstd::std_specs::hash::group_hash_axioms;
    }

    proof fn lemma_key_model() {
        broadcast use vstd::std_specs::hash::group_hash_axioms;
    }

    fn default() -> (r: Self) {
        u64::MIN
    }

    fn increment(&mut self) {
        *self = *self + 1;
    }

    fn no_later_than(&self, other: &Self) -> (r: bool) {
        *self <= *other
    }

    fn is_max(&self) -> (r: bool) {
        *self == u64::MAX
    }
}

impl Id for u128 {
    open spec fn rank(&self) -> int {
        *self as int
    }

    open spec fn min_rank() -> int {
        u128::MIN as int
    }

    open spec fn max_rank() -> int {
        u128::MAX as int
    }

    proof fn lemma_id_laws(a: &Self, b: &Self) {
        broadcast use vstd::std_specs::hash::group_hash_axioms;
    }

    proof fn lemma_key_model() {
        broadcast use vstd::std_specs::hash::group_hash_axioms;
    }

    fn default() -> (r: Self) {
        u128::MIN
    }

    fn increment(&mut self) {
        *self = *self + 1;
    }

    fn no_later_than(&self, other: &Self) -> (r: bool) {
        *self <= *other
    }

    fn is_max(&self) -> (r: bool) {
        *self == u128::MAX
    }
}

impl Id for usize {
    open spec fn rank(&self) -> int {
        *self as int
    }

    open spec fn min_rank() -> int {
        usize::MIN as int
    }

    open spec fn max_rank() -> int {
        usize::MAX as int
    }

    proof fn lemma_id_laws(a: &Self, b: &Self) {
        broadcast use vstd::std_specs::hash::group_hash_axioms;
    }

    proof fn lemma_key_model() {
        broadcast use vstd::std_specs::hash::group_hash_axioms;
    }

    fn default() -> (r: Self) {
        usize::MIN
    }

    fn increment(&mut self) {
        *self = *self + 1;
    }

    fn no_later_than(&self, other: &Self) -> (r: bool) {
        *self <= *other
    }

    fn is_max(&self) -> (r: bool) {
        *self == usize::MAX
    }
}

impl Id for i8 {
    open spec fn rank(&self) -> int {
        *self as int
    }

    open spec fn min_rank() -> int {
        i8::MIN as int
    }

    open spec fn max_rank() -> int {
        i8::MAX as int
    }

    proof fn lemma_id_laws(a: &Self, b: &Self) {
        broadcast use vstd::std_specs::hash::group_hash_axioms;
    }

    proof fn lemma_key_model() {
        broadcast use vstd::std_specs::hash::group_hash_axioms;
    }

    fn default() -> (r: Self) {
        i8::MIN
    }

    fn increment(&mut self) {
        *self = *self + 1;
    }

    fn no_later_than(&self, other: &Self) -> (r: bool) {
        *self <= *other
    }

    fn is_max(&self) -> (r: bool) {
        *self == i8::MAX
    }
}

impl Id for i16 {
    open spec fn rank(&self) -> int {
        *self as int
    }

    open spec fn min_rank() -> int {
        i16::MIN as int
    }

    open spec fn max_rank() -> int {
        i16::MAX as int
    }

    proof fn lemma_id_laws(a: &Self, b: &Self) {
        broadcast use vstd::std_specs::hash::group_hash_axioms;
    }

    proof fn lemma_key_model() {
        broadcast use vstd::std_specs::hash::group_hash_axioms;
    }

    fn default() -> (r: Self) {
        i16::MIN
    }

    fn increment(&mut self) {
        *self = *self + 1;
    }

    fn no_later_than(&self, other: &Self) -> (r: bool) {
        *self <= *other
    }

    fn is_max(&self) -> (r: bool) {
        *self == i16::MAX
    }
}

impl Id for i32 {
    open spec fn rank(&self) -> int {
        *self as int
    }

    open spec fn min_rank() -> int {
        i32::MIN as int
    }

    open spec fn max_rank() -> int {
        i32::MAX as int
    }

    proof fn lemma_id_laws(a: &Self, b: &Self) {
        broadcast use vstd::std_specs::hash::group_hash_axioms;
    }

    proof fn lemma_key_model() {
        broadcast use vstd::std_specs::hash::group_hash_axioms;
    }

    fn default() -> (r: Self) {
        i32::MIN
    }

    fn increment(&mut self) {
        *self = *self + 1;
    }

    fn no_later_than(&self, other: &Self) -> (r: bool) {
        *self <= *other
    }

    fn is_max(&self) -> (r: bool) {
        *self == i32::MAX
    }
}

impl Id for i64 {
    open spec fn rank(&self) -> int {
        *self as int
    }

    open spec fn min_rank() -> int {
        i64::MIN as int
    }

    open spec fn max_rank() -> int {
        i64::MAX as int
    }

    proof fn lemma_id_laws(a: &Self, b: &Self) {
        broadcast use vstd::std_specs::hash::group_hash_axioms;
    }

    proof fn lemma_key_model() {
        broadcast use vstd::std_specs::hash::group_hash_axioms;
    }

    fn default() -> (r: Self) {
        i64::MIN
    }

    fn increment(&mut self) {
        *self = *self + 1;
    }

    fn no_later_than(&self, other: &Self) -> (r: bool) {
        *self <= *other
    }

    fn is_max(&self) -> (r: bool) {
        *self == i64::MAX
    }
}

impl Id for i128 {
    open spec fn rank(&self) -> int {
        *self as int
    }

    open spec fn min_rank() -> int {
        i128::MIN as int
    }

    open spec fn max_rank() -> int {
        i128::MAX as int
    }

    proof fn lemma_id_laws(a: &Self, b: &Self) {
        broadcast use vstd::std_specs::hash::group_hash_axioms;
    }

    proof fn lemma_key_model() {
        broadcast use vstd::std_specs::hash::group_hash_axioms;
    }

    fn default() -> (r: Self) {
        i128::MIN
    }

    fn increment(&mut self) {
        *self = *self + 1;
    }

    fn no_later_than(&self, other: &Self) -> (r: bool) {
        *self <= *other
    }

    fn is_max(&self) -> (r: bool) {
        *self == i128::MAX
    }
}

impl Id for isize {
    open spec fn rank(&self) -> int {
        *self as int
    }

    open spec fn min_rank() -> int {
        isize::MIN as int
    }

    open spec fn max_rank() -> int {
        isize::MAX as int
    }

    proof fn lemma_id_laws(a: &Self, b: &Self) {
        broadcast use vstd::std_specs::hash::group_hash_axioms;
    }

    proof fn lemma_key_model() {
        broadcast use vstd::std_specs::hash::group_hash_axioms;
    }

    fn default() -> (r: Self) {
        isize::MIN
    }

    fn increment(&mut self) {
        *self = *self + 1;
    }

    fn no_later_than(&self, other: &Self) -> (r: bool) {
        *self <= *other
    }

    fn is_max(&self) -> (r: bool) {
        *self == isize::MAX
    }
}

} // verus!
