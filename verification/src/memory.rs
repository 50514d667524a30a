//! Pools of reusable objects and a chunked arena, with their counters.

use vstd::prelude::*;

verus! {

/// The size of an arena chunk in bytes.
pub const CHUNK_SIZE: usize = 4096;

/// A bump arena: filled chunks, the chunk being filled, and the position
/// of the next free byte in it.
pub struct Arena {
    memory: Vec<Vec<u8>>,
    current_chunk: Vec<u8>,
    position: usize,
}

impl Arena {
    /// The number of chunks that were filled and put aside.
    pub closed spec fn filled(&self) -> nat {
        self.memory@.len()
    }

    /// The position of the next free byte in the current chunk.
    pub closed spec fn offset(&self) -> nat {
        self.position as nat
    }

    /// The bytes written to the current chunk.
    pub closed spec fn written(&self) -> Seq<u8> {
        self.current_chunk@
    }

    /// An arena with one empty chunk.
    pub fn new() -> (r: Self)
        ensures
            r.filled() == 0,
            r.offset() == 0,
            r.written().len() == 0,
    {
        Arena { memory: Vec::new(), current_chunk: Vec::with_capacity(CHUNK_SIZE), position: 0 }
    }

    /// Drops every chunk and starts again with one empty chunk.
    pub fn clear(&mut self)
        ensures
            final(self).filled() == 0,
            final(self).offset() == 0,
            final(self).written().len() == 0,
    {
        self.memory.clear();
        self.current_chunk.clear();
        self.current_chunk.reserve(CHUNK_SIZE);
        self.position = 0;
    }
}

/// A fixed number of objects, each free or in use.
pub struct ObjectPool<T: Default + Clone> {
    objects: Vec<T>,
    in_use: Vec<bool>,
    capacity: usize,
}

/// What a pool hands out and takes back by index.
pub trait ObjectPoolTrait<T: Default + Clone> {
    /// The number of slots of the pool.
    spec fn pool_slots(&self) -> nat;

    /// Which slots of the pool are in use.
    spec fn pool_used(&self) -> Seq<bool>;

    /// The objects of the pool, slot by slot.
    spec fn pool_items(&self) -> Seq<T>;

    /// Marks the slot `index` free again; an index past the end is ignored.
    fn return_object(&mut self, index: usize)
        ensures
            final(self).pool_slots() == old(self).pool_slots(),
            final(self).pool_items() == old(self).pool_items(),
            final(self).pool_used() == if index < old(self).pool_slots() {
                old(self).pool_used().update(index as int, false)
            } else {
                old(self).pool_used()
            },
    ;

    /// A copy of the object in slot `index`, if there is such a slot.
    fn get_object(&self, index: usize) -> (r: Option<T>)
        ensures
            r is Some <==> index < self.pool_slots(),
            r matches Some(v) ==> cloned(self.pool_items()[index as int], v),
    ;

    /// A copy of the object in slot `index`, if there is such a slot.
    fn get_object_mut(&self, index: usize) -> (r: Option<T>)
        ensures
            r is Some <==> index < self.pool_slots(),
            r matches Some(v) ==> cloned(self.pool_items()[index as int], v),
    ;
}

/// The first index at which `s` is `false`, or the length of `s`.
pub open spec fn first_free(s: Seq<bool>) -> int
    decreases s.len(),
{
    if s.len() == 0 {
        0
    } else if !s[0] {
        0
    } else {
        1 + first_free(s.drop_first())
    }
}

/// `first_free` is at most the length, points at a free slot when it is
/// below the length, and every slot before it is in use.
pub proof fn lemma_first_free(s: Seq<bool>)
    ensures
        0 <= first_free(s) <= s.len(),
        first_free(s) < s.len() ==> !s[first_free(s)],
        forall|j: int| 0 <= j < first_free(s) ==> s[j],
    decreases s.len(),
{
    if s.len() > 0 && s[0] {
        let t = s.drop_first();
        lemma_first_free(t);
        assert forall|j: int| 0 <= j < first_free(s) implies s[j] by {
            if j > 0 {
                assert(t[j - 1] == s[j]);
            }
        }
    }
}

/// Where every slot before `k` is in use and slot `k` is free, `k` is the
/// first free slot; where every slot is in use, there is none.
pub proof fn lemma_first_free_is(s: Seq<bool>, k: int)
    requires
        0 <= k <= s.len(),
        forall|j: int| 0 <= j < k ==> s[j],
        k < s.len() ==> !s[k],
    ensures
        first_free(s) == k,
{
    lemma_first_free(s);
    let f = first_free(s);
    if f < k {
        assert(s[f]);
    } else if f > k {
        assert(s[k]);
    }
}

impl<T: Default + Clone> ObjectPoolTrait<T> for ObjectPool<T> {
    open spec fn pool_slots(&self) -> nat {
        self.slots()
    }

    open spec fn pool_used(&self) -> Seq<bool> {
        self.used()
    }

    open spec fn pool_items(&self) -> Seq<T> {
        self.items()
    }

    fn return_object(&mut self, index: usize) {
        ObjectPool::return_object(self, index)
    }

    fn get_object(&self, index: usize) -> (r: Option<T>) {
        ObjectPool::get_object(self, index)
    }

    fn get_object_mut(&self, index: usize) -> (r: Option<T>) {
        ObjectPool::get_object_mut(self, index)
    }
}

impl<T: Default + Clone> ObjectPool<T> {
    /// The number of slots.
    pub closed spec fn slots(&self) -> nat {
        self.capacity as nat
    }

    /// Which slots are in use.
    pub closed spec fn used(&self) -> Seq<bool> {
        self.in_use@
    }

    /// The objects, slot by slot.
    pub closed spec fn items(&self) -> Seq<T> {
        self.objects@
    }

    /// Every slot has its object and its mark.
    #[verifier::type_invariant]
    spec fn wf(self) -> bool {
        self.objects@.len() == self.capacity && self.in_use@.len() == self.capacity
    }


    /// A pool of `capacity` objects, each made by `T::default`, all free.
    pub fn new(capacity: usize) -> (r: Self)
        ensures
            r.slots() == capacity,
            r.used() == Seq::new(capacity as nat, |i: int| false),
            forall|i: int|
                0 <= i < capacity ==> call_ensures(T::default, (), #[trigger] r.items()[i]),
    {
        let mut objects: Vec<T> = Vec::with_capacity(capacity);
        let mut in_use: Vec<bool> = Vec::with_capacity(capacity);
        let mut i: usize = 0;
        while i < capacity
            invariant
                i <= capacity,
                objects@.len() == i,
                in_use@ == Seq::new(i as nat, |j: int| false),
                forall|j: int| 0 <= j < i ==> call_ensures(T::default, (), #[trigger] objects@[j]),
            decreases capacity - i,
        {
            objects.push(T::default());
            in_use.push(false);
            i = i + 1;
            assert(in_use@ =~= Seq::new(i as nat, |j: int| false));
        }
        ObjectPool { objects, in_use, capacity }
    }

    /// Takes the first free slot: marks it in use and hands out its index
    /// with a copy of its object. `None`, and no change, when every slot
    /// is in use.
    pub fn get(&mut self) -> (r: Option<PooledObject<T>>)
        ensures
            final(self).slots() == old(self).slots(),
            final(self).items() == old(self).items(),
            match r {
                Some(handle) => {
                    &&& first_free(old(self).used()) < old(self).slots()
                    &&& handle.slot() == first_free(old(self).used())
                    &&& cloned(old(self).items()[handle.slot() as int], handle.item())
                    &&& final(self).used() == old(self).used().update(handle.slot() as int, true)
                },
                None => {
                    &&& first_free(old(self).used()) == old(self).slots()
                    &&& final(self).used() == old(self).used()
                },
            },
    {
        proof {
            use_type_invariant(&*self);
        }
        let mut i: usize = 0;
        while i < self.capacity
            invariant
                self.objects@.len() == self.capacity,
                self.in_use@.len() == self.capacity,
                *self == *old(self),
                i <= self.capacity,
                forall|j: int| 0 <= j < i ==> self.in_use@[j],
            decreases self.capacity - i,
        {
            if !self.in_use[i] {
                proof {
                    lemma_first_free_is(self.in_use@, i as int);
                }
                let mut marks = self.in_use.clone();
                marks.set(i, true);
                assert(marks@ =~= self.in_use@.update(i as int, true));
                self.in_use = marks;
                let object = self.objects[i].clone();
                return Some(PooledObject { object, index: i });
            }
            i = i + 1;
        }
        proof {
            lemma_first_free_is(self.in_use@, i as int);
        }
        None
    }

    /// Marks the slot `index` free again; an index past the end is ignored.
    pub fn return_object(&mut self, index: usize)
        ensures
            final(self).slots() == old(self).slots(),
            final(self).items() == old(self).items(),
            final(self).used() == if index < old(self).slots() {
                old(self).used().update(index as int, false)
            } else {
                old(self).used()
            },
    {
        proof {
            use_type_invariant(&*self);
        }
        if index < self.capacity {
            let mut marks = self.in_use.clone();
            marks.set(index, false);
            assert(marks@ =~= self.in_use@.update(index as int, false));
            self.in_use = marks;
        }
    }

    /// A copy of the object in slot `index`, if there is such a slot.
    pub fn get_object(&self, index: usize) -> (r: Option<T>)
        ensures
            r is Some <==> index < self.slots(),
            r matches Some(v) ==> cloned(self.items()[index as int], v),
    {
        proof {
            use_type_invariant(self);
        }
        if index < self.capacity {
            Some(self.objects[index].clone())
        } else {
            None
        }
    }

    /// A copy of the object in slot `index`, if there is such a slot.
    pub fn get_object_mut(&self, index: usize) -> (r: Option<T>)
        ensures
            r is Some <==> index < self.slots(),
            r matches Some(v) ==> cloned(self.items()[index as int], v),
    {
        self.get_object(index)
    }
}

/// An object taken from a pool: a copy of it and the slot it came from.
pub struct PooledObject<T: Default + Clone> {
    object: T,
    index: usize,
}

impl<T: Default + Clone> PooledObject<T> {
    /// The slot that the object was taken from.
    pub closed spec fn slot(&self) -> nat {
        self.index as nat
    }

    /// The object as it was taken.
    pub closed spec fn item(&self) -> T {
        self.object
    }

    /// The slot that the object was taken from.
    pub fn index(&self) -> (i: usize)
        ensures
            i == self.slot(),
    {
        self.index
    }

    /// A copy of the object.
    pub fn get(&self) -> (r: Option<T>)
        ensures
            r matches Some(v) && cloned(self.item(), v),
    {
        Some(self.object.clone())
    }

    /// A copy of the object.
    pub fn get_mut(&mut self) -> (r: Option<T>)
        ensures
            *final(self) == *old(self),
            r matches Some(v) && cloned(old(self).item(), v),
    {
        Some(self.object.clone())
    }
}

/// A pool meant for the use of one thread.
pub struct ThreadLocalObjectPool<T: Default + Clone> {
    pool: ObjectPool<T>,
}

impl<T: Default + Clone> ThreadLocalObjectPool<T> {
    /// The pool inside.
    pub closed spec fn inner(&self) -> ObjectPool<T> {
        self.pool
    }

    /// A pool of `capacity` free objects.
    pub fn new(capacity: usize) -> (r: Self)
        ensures
            r.inner().slots() == capacity,
            r.inner().used() == Seq::new(capacity as nat, |i: int| false),
    {
        ThreadLocalObjectPool { pool: ObjectPool::new(capacity) }
    }

    /// Takes the first free slot of the pool inside.
    pub fn get(&mut self) -> (r: Option<PooledObject<T>>)
        ensures
            final(self).inner().slots() == old(self).inner().slots(),
            final(self).inner().items() == old(self).inner().items(),
            r matches Some(handle) ==> cloned(
                old(self).inner().items()[handle.slot() as int],
                handle.item(),
            ),
            r is Some <==> first_free(old(self).inner().used()) < old(self).inner().slots(),
            r matches Some(handle) ==> handle.slot() == first_free(old(self).inner().used())
                && final(self).inner().used() == old(self).inner().used().update(
                handle.slot() as int,
                true,
            ),
            r is None ==> final(self).inner().used() == old(self).inner().used(),
    {
        self.pool.get()
    }
}

/// The number of stacks and of variable tables that an interpreter pool
/// holds.
pub const INTERPRETER_POOL_SIZE: usize = 10;

/// A variable's name with its value.
pub struct Binding {
    pub name: String,
    pub value: u64,
}

impl Clone for Binding {
    fn clone(&self) -> (r: Self)
        ensures
            r == *self,
    {
        Binding { name: self.name.clone(), value: self.value }
    }
}

/// The pools an interpreter draws its stacks and variable tables from.
pub struct InterpreterMemoryPool {
    stack_pool: ObjectPool<Vec<u64>>,
    variables_pool: ObjectPool<Vec<Binding>>,
}

impl InterpreterMemoryPool {
    /// The pool of stacks.
    pub closed spec fn stacks(&self) -> ObjectPool<Vec<u64>> {
        self.stack_pool
    }

    /// The pool of variable tables.
    pub closed spec fn tables(&self) -> ObjectPool<Vec<Binding>> {
        self.variables_pool
    }

    /// Ten free stacks and ten free variable tables.
    pub fn new() -> (r: Self)
        ensures
            r.stacks().slots() == INTERPRETER_POOL_SIZE,
            r.tables().slots() == INTERPRETER_POOL_SIZE,
            r.stacks().used() == Seq::new(INTERPRETER_POOL_SIZE as nat, |i: int| false),
            r.tables().used() == Seq::new(INTERPRETER_POOL_SIZE as nat, |i: int| false),
    {
        InterpreterMemoryPool {
            stack_pool: ObjectPool::new(INTERPRETER_POOL_SIZE),
            variables_pool: ObjectPool::new(INTERPRETER_POOL_SIZE),
        }
    }

    /// Takes the first free stack.
    pub fn get_stack(&mut self) -> (r: Option<PooledObject<Vec<u64>>>)
        ensures
            final(self).tables() == old(self).tables(),
            final(self).stacks().slots() == old(self).stacks().slots(),
            final(self).stacks().items() == old(self).stacks().items(),
            r matches Some(handle) ==> cloned(
                old(self).stacks().items()[handle.slot() as int],
                handle.item(),
            ),
            r is Some <==> first_free(old(self).stacks().used()) < old(self).stacks().slots(),
            r matches Some(handle) ==> handle.slot() == first_free(old(self).stacks().used())
                && final(self).stacks().used() == old(self).stacks().used().update(
                handle.slot() as int,
                true,
            ),
            r is None ==> final(self).stacks().used() == old(self).stacks().used(),
    {
        self.stack_pool.get()
    }

    /// Takes the first free variable table.
    pub fn get_variables(&mut self) -> (r: Option<PooledObject<Vec<Binding>>>)
        ensures
            final(self).stacks() == old(self).stacks(),
            final(self).tables().slots() == old(self).tables().slots(),
            final(self).tables().items() == old(self).tables().items(),
            r matches Some(handle) ==> cloned(
                old(self).tables().items()[handle.slot() as int],
                handle.item(),
            ),
            r is Some <==> first_free(old(self).tables().used()) < old(self).tables().slots(),
            r matches Some(handle) ==> handle.slot() == first_free(old(self).tables().used())
                && final(self).tables().used() == old(self).tables().used().update(
                handle.slot() as int,
                true,
            ),
            r is None ==> final(self).tables().used() == old(self).tables().used(),
    {
        self.variables_pool.get()
    }
}

/// A fresh interpreter pool.
pub fn get_interpreter_pool() -> (r: InterpreterMemoryPool)
    ensures
        r.stacks().slots() == INTERPRETER_POOL_SIZE,
        r.tables().slots() == INTERPRETER_POOL_SIZE,
        r.stacks().used() == Seq::new(INTERPRETER_POOL_SIZE as nat, |i: int| false),
        r.tables().used() == Seq::new(INTERPRETER_POOL_SIZE as nat, |i: int| false),
{
    InterpreterMemoryPool::new()
}

/// Counters of memory use.
pub struct MemoryStats {
    pub arena_allocation: usize,
    pub object_pool_hits: usize,
    pub object_pool_misses: usize,
    pub clone_operations: usize,
}

impl MemoryStats {
    /// All counters at zero.
    pub fn new() -> (r: Self)
        ensures
            r.arena_allocation == 0,
            r.object_pool_hits == 0,
            r.object_pool_misses == 0,
            r.clone_operations == 0,
    {
        MemoryStats {
            arena_allocation: 0,
            object_pool_hits: 0,
            object_pool_misses: 0,
            clone_operations: 0,
        }
    }

    /// Sets all counters to zero.
    pub fn reset(&mut self)
        ensures
            final(self).arena_allocation == 0,
            final(self).object_pool_hits == 0,
            final(self).object_pool_misses == 0,
            final(self).clone_operations == 0,
    {
        self.arena_allocation = 0;
        self.object_pool_hits = 0;
        self.object_pool_misses = 0;
        self.clone_operations = 0;
    }

    /// Counts one clone; the counter stays at its greatest value once it
    /// is there.
    pub fn record_clone(&mut self)
        ensures
            final(self).arena_allocation == old(self).arena_allocation,
            final(self).object_pool_hits == old(self).object_pool_hits,
            final(self).object_pool_misses == old(self).object_pool_misses,
            final(self).clone_operations == if old(self).clone_operations < usize::MAX {
                old(self).clone_operations + 1
            } else {
                usize::MAX as int
            },
    {
        if self.clone_operations < usize::MAX {
            self.clone_operations = self.clone_operations + 1;
        }
    }
}

} // verus!
