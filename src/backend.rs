use vstd::prelude::*;

verus! {

/// A block of `n` zero bytes: what a fresh allocation holds.
pub open spec fn zeroed(n: nat) -> Seq<u8> {
    Seq::new(n, |i: int| 0u8)
}

/// The raw memory primitives that a compute backend offers to the cache.
///
/// `mem` maps each live handle to its bytes. `issued` holds every handle
/// ever handed out: a backend never hands out a handle twice, so a stale
/// alias can never reach memory that was allocated after it.
pub trait Backend: Sized {
    spec fn wf(&self) -> bool;

    spec fn mem(&self) -> Map<u64, Seq<u8>>;

    spec fn issued(&self) -> Set<u64>;

    /// How many allocations have succeeded so far.
    spec fn allocations(&self) -> nat;

    /// Whether an allocation of `size` bytes would succeed now.
    spec fn has_room(&self, size: nat) -> bool;

    /// Whether an allocation of `first` bytes, then one of `second` bytes,
    /// would both succeed now.
    spec fn has_room_for_two(&self, first: nat, second: nat) -> bool;

    proof fn lemma_room_for_two(&self, first: nat, second: nat)
        requires
            self.has_room_for_two(first, second),
        ensures
            self.has_room(first),
            self.has_room(second),
    ;

    fn allocate(&mut self, size: usize) -> (r: Option<u64>)
        requires
            old(self).wf(),
        ensures
            final(self).wf(),
            r is Some <==> old(self).has_room(size as nat),
            r is Some ==> forall|n: nat|
                old(self).has_room_for_two(size as nat, n) ==> #[trigger] final(self).has_room(n),
            match r {
                Some(h) => {
                    &&& !old(self).issued().contains(h)
                    &&& final(self).issued() == old(self).issued().insert(h)
                    &&& final(self).mem() == old(self).mem().insert(h, zeroed(size as nat))
                    &&& final(self).allocations() == old(self).allocations() + 1
                },
                None => *final(self) == *old(self),
            },
    ;

    fn free(&mut self, h: u64)
        requires
            old(self).wf(),
        ensures
            final(self).wf(),
            final(self).mem() == old(self).mem().remove(h),
            final(self).issued() == old(self).issued(),
            final(self).allocations() == old(self).allocations(),
            forall|n: nat| old(self).has_room(n) ==> #[trigger] final(self).has_room(n),
    ;

    fn read(&self, h: u64) -> (r: Option<Vec<u8>>)
        requires
            self.wf(),
        ensures
            r is Some <==> self.mem().contains_key(h),
            r matches Some(v) ==> v@ == self.mem()[h],
    ;

    /// Replaces the bytes of `h`; refused (`false`, nothing changed) when
    /// `h` is not live or holds another number of bytes.
    fn write(&mut self, h: u64, bytes: &[u8]) -> (r: bool)
        requires
            old(self).wf(),
        ensures
            final(self).wf(),
            r == (old(self).mem().contains_key(h) && old(self).mem()[h].len() == bytes@.len()),
            r ==> final(self).mem() == old(self).mem().insert(h, bytes@),
            r ==> final(self).issued() == old(self).issued(),
            r ==> final(self).allocations() == old(self).allocations(),
            r ==> forall|n: nat| #[trigger] final(self).has_room(n) == old(self).has_room(n),
            !r ==> *final(self) == *old(self),
    ;
}

} // verus!
