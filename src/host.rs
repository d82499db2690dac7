use vstd::prelude::*;

use crate::backend::{zeroed, Backend};

verus! {

/// Main-memory backend: each allocation is a `Vec<u8>` in an arena indexed by
/// handle. A handle is the arena position of its block and is never reused.
/// Allocations beyond `capacity` live bytes are refused.
pub struct HostBackend {
    blocks: Vec<Option<Vec<u8>>>,
    capacity: usize,
    in_use: usize,
}

pub open spec fn block_len(b: Option<Vec<u8>>) -> nat {
    match b {
        Some(v) => v@.len(),
        None => 0,
    }
}

/// Bytes held by the live blocks of an arena.
pub open spec fn live_bytes(blocks: Seq<Option<Vec<u8>>>) -> nat
    decreases blocks.len(),
{
    if blocks.len() == 0 {
        0
    } else {
        live_bytes(blocks.drop_last()) + block_len(blocks.last())
    }
}

proof fn lemma_live_bytes_update(s: Seq<Option<Vec<u8>>>, i: int, x: Option<Vec<u8>>)
    requires
        0 <= i < s.len(),
    ensures
        block_len(s[i]) <= live_bytes(s),
        live_bytes(s.update(i, x)) == live_bytes(s) - block_len(s[i]) + block_len(x),
    decreases s.len(),
{
    let t = s.update(i, x);
    if i == s.len() - 1 {
        assert(t.drop_last() =~= s.drop_last());
    } else {
        assert(t.drop_last() =~= s.drop_last().update(i, x));
        lemma_live_bytes_update(s.drop_last(), i, x);
    }
}

proof fn lemma_live_bytes_push(s: Seq<Option<Vec<u8>>>, x: Option<Vec<u8>>)
    ensures
        live_bytes(s.push(x)) == live_bytes(s) + block_len(x),
{
    assert(s.push(x).drop_last() =~= s);
}

fn zero_block(n: usize) -> (r: Vec<u8>)
    ensures
        r@ == zeroed(n as nat),
{
    let mut r: Vec<u8> = Vec::with_capacity(n);
    let mut i: usize = 0;
    while i < n
        invariant
            i <= n,
            r@ == zeroed(i as nat),
        decreases n - i,
    {
        r.push(0u8);
        i = i + 1;
        assert(r@ =~= zeroed(i as nat));
    }
    r
}

fn copy_bytes(bytes: &[u8]) -> (r: Vec<u8>)
    ensures
        r@ == bytes@,
{
    let mut r: Vec<u8> = Vec::with_capacity(bytes.len());
    let mut i: usize = 0;
    while i < bytes.len()
        invariant
            i <= bytes@.len(),
            r@ == bytes@.subrange(0, i as int),
        decreases bytes@.len() - i,
    {
        r.push(bytes[i]);
        i = i + 1;
        assert(r@ =~= bytes@.subrange(0, i as int));
    }
    assert(r@ =~= bytes@);
    r
}

impl HostBackend {
    pub closed spec fn used(&self) -> nat {
        self.in_use as nat
    }

    pub closed spec fn capacity(&self) -> nat {
        self.capacity as nat
    }

    /// An empty arena that holds at most `capacity` live bytes.
    pub fn new(capacity: usize) -> (r: HostBackend)
        ensures
            r.wf(),
            r.mem() == Map::<u64, Seq<u8>>::empty(),
            r.issued() == Set::<u64>::empty(),
            r.allocations() == 0,
            r.used() == 0,
            r.capacity() == capacity,
    {
        let r = HostBackend { blocks: Vec::new(), capacity, in_use: 0 };
        assert(r.mem() =~= Map::<u64, Seq<u8>>::empty());
        assert(r.issued() =~= Set::<u64>::empty());
        r
    }

    pub fn allocation_count(&self) -> (r: u64)
        requires
            self.wf(),
        ensures
            r == self.allocations(),
    {
        self.blocks.len() as u64
    }

    pub fn bytes_in_use(&self) -> (r: usize)
        ensures
            r == self.used(),
    {
        self.in_use
    }
}

impl Backend for HostBackend {
    closed spec fn wf(&self) -> bool {
        &&& self.blocks.len() < u64::MAX
        &&& self.in_use as nat == live_bytes(self.blocks@)
        &&& self.in_use <= self.capacity
    }

    closed spec fn mem(&self) -> Map<u64, Seq<u8>> {
        Map::new(
            |h: u64| (h as int) < self.blocks@.len() && self.blocks@[h as int] is Some,
            |h: u64| self.blocks@[h as int].unwrap()@,
        )
    }

    closed spec fn issued(&self) -> Set<u64> {
        Set::new(|h: u64| (h as int) < self.blocks@.len())
    }

    closed spec fn allocations(&self) -> nat {
        self.blocks@.len()
    }

    open spec fn has_room(&self, size: nat) -> bool {
        &&& self.used() + size <= self.capacity()
        &&& self.allocations() + 1 < u64::MAX
    }

    open spec fn has_room_for_two(&self, first: nat, second: nat) -> bool {
        &&& self.used() + first + second <= self.capacity()
        &&& self.allocations() + 2 < u64::MAX
    }

    proof fn lemma_room_for_two(&self, first: nat, second: nat) {
    }

    fn allocate(&mut self, size: usize) -> (r: Option<u64>) {
        if self.blocks.len() as u64 >= u64::MAX - 1 || size > self.capacity - self.in_use {
            return None;
        }
        let h = self.blocks.len() as u64;
        let block = zero_block(size);
        proof {
            lemma_live_bytes_push(self.blocks@, Some(block));
        }
        self.blocks.push(Some(block));
        self.in_use = self.in_use + size;
        assert(self.mem() =~= old(self).mem().insert(h, zeroed(size as nat)));
        assert(self.issued() =~= old(self).issued().insert(h));
        Some(h)
    }

    fn free(&mut self, h: u64) {
        if h < self.blocks.len() as u64 {
            let i = h as usize;
            proof {
                lemma_live_bytes_update(self.blocks@, i as int, None);
            }
            let freed = match &self.blocks[i] {
                Some(v) => v.len(),
                None => 0,
            };
            self.blocks.set(i, None);
            self.in_use = self.in_use - freed;
        }
        assert(self.mem() =~= old(self).mem().remove(h));
        assert(self.issued() =~= old(self).issued());
    }

    fn read(&self, h: u64) -> (r: Option<Vec<u8>>) {
        if h < self.blocks.len() as u64 {
            match &self.blocks[h as usize] {
                Some(v) => Some(v.clone()),
                None => None,
            }
        } else {
            None
        }
    }

    fn write(&mut self, h: u64, bytes: &[u8]) -> (r: bool) {
        if h < self.blocks.len() as u64 {
            let i = h as usize;
            let fits = match &self.blocks[i] {
                Some(v) => v.len() == bytes.len(),
                None => false,
            };
            if fits {
                let fresh = copy_bytes(bytes);
                proof {
                    lemma_live_bytes_update(self.blocks@, i as int, Some(fresh));
                }
                self.blocks.set(i, Some(fresh));
                assert(self.mem() =~= old(self).mem().insert(h, bytes@));
                assert(self.issued() =~= old(self).issued());
                return true;
            }
        }
        false
    }
}

} // verus!
