use vstd::prelude::*;

verus! {

/// An object that a pool can create and reuse.
pub trait PoolObjectTrait: Sized {
    type InitData;

    /// A fresh object, made from the pool's initialisation data.
    fn allocate_new(init_data: &Self::InitData) -> Self;

    /// Brings a returned object back to its reusable state.
    fn reset(&mut self);
}

/// An object that travels between stages as a packet.
pub trait PacketTrait: PoolObjectTrait {
    /// Memory that the object's contents take.
    fn get_size(&self) -> usize;
}

/// A payload that can be carried as a value of the erased type `U` and be
/// recovered from it. Recovery gives back exactly what was erased, and
/// fails on a value that another payload type produced.
pub trait Erasable<U>: Sized {
    spec fn erase_spec(self) -> U;

    spec fn recover_spec(u: U) -> Option<Self>;

    proof fn lemma_recover_erase(x: Self)
        ensures
            Self::recover_spec(Self::erase_spec(x)) == Some(x),
    ;

    fn erase(self) -> (r: U)
        ensures
            r == Self::erase_spec(self),
    ;

    fn recover(u: U) -> (r: Result<Self, U>)
        ensures
            match Self::recover_spec(u) {
                Some(x) => r == Ok::<Self, U>(x),
                None => r == Err::<Self, U>(u),
            },
    ;
}

/// Exclusive owner of one payload. A packet taken from a pool carries the
/// identity of that pool, its return path; a standalone packet carries none
/// and owns its payload outright.
pub struct Packet<T> {
    object: T,
    returner: Option<u64>,
}

/// A packet whose payload type has been forgotten: the payload is held as
/// the erased type `U`, with the same return path.
pub struct PacketAny<U> {
    object: U,
    returner: Option<u64>,
}

impl<T> Packet<T> {
    pub closed spec fn object_spec(&self) -> T {
        self.object
    }

    /// The identity of the pool the packet returns to, if any.
    pub closed spec fn returner_spec(&self) -> Option<int> {
        match self.returner {
            Some(g) => Some(g as int),
            None => None,
        }
    }

    /// Wraps a value that belongs to no pool.
    pub fn new_simple(data: T) -> (r: Self)
        ensures
            r.object_spec() == data,
            r.returner_spec() is None,
    {
        Packet { object: data, returner: None }
    }

    /// Shared access to the payload.
    pub fn get(&self) -> (r: &T)
        ensures
            *r == self.object_spec(),
    {
        &self.object
    }

    /// Exclusive access to the payload; the return path stays as it is.
    pub fn get_mut(&mut self) -> (r: &mut T)
        ensures
            *r == old(self).object_spec(),
            final(self).object_spec() == *final(r),
            final(self).returner_spec() == old(self).returner_spec(),
    {
        &mut self.object
    }

    pub fn is_pooled(&self) -> (r: bool)
        ensures
            r == self.returner_spec() is Some,
    {
        self.returner.is_some()
    }

    /// Releases a standalone packet: its payload is handed back to be
    /// destroyed by its owner.
    pub fn into_inner(self) -> (r: T)
        requires
            self.returner_spec() is None,
        ensures
            r == self.object_spec(),
    {
        self.object
    }

    /// Forgets the payload type; the return path is kept.
    pub fn upcast<U>(self) -> (r: PacketAny<U>)
        where
            T: Erasable<U>,
        ensures
            r.object_spec() == self.object_spec().erase_spec(),
            r.returner_spec() == self.returner_spec(),
    {
        PacketAny { object: self.object.erase(), returner: self.returner }
    }
}

impl<U> PacketAny<U> {
    pub closed spec fn object_spec(&self) -> U {
        self.object
    }

    pub closed spec fn returner_spec(&self) -> Option<int> {
        match self.returner {
            Some(g) => Some(g as int),
            None => None,
        }
    }

    /// Recovers the typed packet. On a payload of another type the erased
    /// packet comes back untouched, as `Err`: a dispatch error of the
    /// caller, which it must treat as fatal.
    pub fn downcast<T: Erasable<U>>(self) -> (r: Result<Packet<T>, PacketAny<U>>)
        ensures
            match T::recover_spec(self.object_spec()) {
                Some(x) => r matches Ok(p) && p.object_spec() == x
                    && p.returner_spec() == self.returner_spec(),
                None => r matches Err(q) && q.object_spec() == self.object_spec()
                    && q.returner_spec() == self.returner_spec(),
            },
    {
        let returner = self.returner;
        match T::recover(self.object) {
            Ok(object) => Ok(Packet { object, returner }),
            Err(object) => Err(PacketAny { object, returner }),
        }
    }
}

/// Erasing a packet and recovering it as its own type gives back the same
/// payload and the same return path.
pub proof fn lemma_downcast_upcast<T: Erasable<U>, U>(p: Packet<T>, q: PacketAny<U>)
    requires
        q.object_spec() == p.object_spec().erase_spec(),
    ensures
        T::recover_spec(q.object_spec()) == Some(p.object_spec()),
{
    T::lemma_recover_erase(p.object_spec());
}

/// A bounded pool of reusable objects. Objects are created on demand up to
/// the capacity; under strict capacity no more are ever created, and a
/// request on an exhausted pool gets nothing until a packet comes back.
pub struct PacketsPool<T: PoolObjectTrait> {
    id: u64,
    cap: usize,
    strict_capacity: bool,
    init_data: T::InitData,
    idle: Vec<T>,
    live: usize,
}

impl<T: PoolObjectTrait> PacketsPool<T> {
    /// This pool's identity, which its packets carry.
    pub closed spec fn id(&self) -> int {
        self.id as int
    }

    pub closed spec fn capacity(&self) -> nat {
        self.cap as nat
    }

    pub closed spec fn is_strict(&self) -> bool {
        self.strict_capacity
    }

    /// Objects checked out and not returned yet.
    pub closed spec fn live_count(&self) -> nat {
        self.live as nat
    }

    /// Objects waiting in the pool for reuse.
    pub closed spec fn idle_count(&self) -> nat {
        self.idle@.len()
    }

    /// Under strict capacity, never more objects than the capacity exist.
    pub closed spec fn wf(&self) -> bool {
        &&& self.live + self.idle@.len() <= usize::MAX
        &&& self.strict_capacity ==> self.live + self.idle@.len() <= self.cap
    }

    pub fn new(cap: usize, strict_capacity: bool, init_data: T::InitData) -> (r: Self)
        ensures
            r.wf(),
            r.id() == 0,
            r.capacity() == cap,
            r.is_strict() == strict_capacity,
            r.live_count() == 0,
            r.idle_count() == 0,
    {
        Self::new_with_id(0, cap, strict_capacity, init_data)
    }

    /// A pool whose packets carry `pool_id` as their return path, so that
    /// packets of distinct pools can be told apart.
    pub fn new_with_id(pool_id: u64, cap: usize, strict_capacity: bool, init_data: T::InitData) -> (r: Self)
        ensures
            r.wf(),
            r.id() == pool_id,
            r.capacity() == cap,
            r.is_strict() == strict_capacity,
            r.live_count() == 0,
            r.idle_count() == 0,
    {
        PacketsPool { id: pool_id, cap, strict_capacity, init_data, idle: Vec::new(), live: 0 }
    }

    /// Objects checked out and not returned yet.
    pub fn live_objects(&self) -> (r: usize)
        ensures
            r == self.live_count(),
    {
        self.live
    }

    /// Objects waiting for reuse.
    pub fn idle_objects(&self) -> (r: usize)
        ensures
            r == self.idle_count(),
    {
        self.idle.len()
    }

    /// Checks out an object: an idle one if there is one, else a fresh one
    /// while below capacity (or always, without strict capacity). On a
    /// strict pool that is exhausted, returns `None`: the caller waits for
    /// a packet to come back.
    pub fn alloc_packet(&mut self) -> (r: Option<Packet<T>>)
        requires
            old(self).wf(),
        ensures
            final(self).wf(),
            final(self).id() == old(self).id(),
            final(self).capacity() == old(self).capacity(),
            final(self).is_strict() == old(self).is_strict(),
            ({
                let can = old(self).idle_count() > 0
                    || (old(self).live_count() + old(self).idle_count() < usize::MAX
                        && (!old(self).is_strict()
                            || old(self).live_count() + old(self).idle_count() < old(self).capacity()));
                &&& can == r is Some
                &&& can ==> final(self).live_count() == old(self).live_count() + 1
                &&& !can ==> final(self).live_count() == old(self).live_count()
                &&& old(self).idle_count() > 0 ==> final(self).idle_count() == old(self).idle_count() - 1
                &&& old(self).idle_count() == 0 ==> final(self).idle_count() == 0
            }),
            r matches Some(p) ==> p.returner_spec() == Some(old(self).id()),
    {
        match self.idle.pop() {
            Some(object) => {
                self.live = self.live + 1;
                Some(Packet { object, returner: Some(self.id) })
            },
            None => {
                if self.live == usize::MAX || (self.strict_capacity && self.live >= self.cap) {
                    return None;
                }
                let object = T::allocate_new(&self.init_data);
                self.live = self.live + 1;
                Some(Packet { object, returner: Some(self.id) })
            },
        }
    }

    /// The release path of a packet of this pool: its object is reset and
    /// becomes idle, ready for reuse.
    pub fn release_packet(&mut self, packet: Packet<T>)
        requires
            old(self).wf(),
            packet.returner_spec() == Some(old(self).id()),
            old(self).live_count() > 0,
        ensures
            final(self).wf(),
            final(self).id() == old(self).id(),
            final(self).capacity() == old(self).capacity(),
            final(self).is_strict() == old(self).is_strict(),
            final(self).live_count() == old(self).live_count() - 1,
            final(self).idle_count() == old(self).idle_count() + 1,
    {
        let mut object = packet.object;
        object.reset();
        self.idle.push(object);
        self.live = self.live - 1;
    }
}

/// A pool is itself a poolable object: a pool of pools makes each inner
/// pool from its capacity, strictness and initialisation data.
impl<T: PoolObjectTrait> PoolObjectTrait for PacketsPool<T> where T::InitData: Clone {
    type InitData = (usize, bool, T::InitData);

    fn allocate_new(init_data: &(usize, bool, T::InitData)) -> Self {
        PacketsPool::new(init_data.0, init_data.1, init_data.2.clone())
    }

    fn reset(&mut self) {
    }
}

/// Under strict capacity, no sequence of checkouts and releases ever has
/// more objects out than the capacity: each step keeps the pool's
/// invariant, and the invariant bounds the objects checked out.
pub proof fn lemma_strict_capacity<T: PoolObjectTrait>(pool: PacketsPool<T>)
    requires
        pool.wf(),
        pool.is_strict(),
    ensures
        pool.live_count() <= pool.capacity(),
        pool.live_count() + pool.idle_count() <= pool.capacity(),
{
}

} // verus!
