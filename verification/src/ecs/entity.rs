use vstd::prelude::*;
use crossbeam_queue::SegQueue;
use parking_lot::{RawRwLock, RwLock};

verus! {

/// A unique identifier for an entity.
///
/// Combines an index and a generation to detect stale references.
#[derive(Debug, Clone, Copy, PartialEq, Eq, Structural, Hash, PartialOrd, Ord)]
pub struct Entity {
    pub(crate) id: u32,
    pub(crate) generation: u32,
}

impl Entity {
    /// The entity with the given index and generation.
    pub closed spec fn spec_new(id: u32, generation: u32) -> Entity {
        Entity { id, generation }
    }

    /// The index of the entity, as a specification value.
    pub closed spec fn index(self) -> u32 {
        self.id
    }

    /// The generation of the entity, as a specification value.
    pub closed spec fn gen(self) -> u32 {
        self.generation
    }

    /// An entity is determined by its index and generation.
    pub broadcast proof fn lemma_parts(id: u32, generation: u32)
        ensures
            #[trigger] Entity::spec_new(id, generation).index() == id,
            Entity::spec_new(id, generation).gen() == generation,
    {
    }

    /// Two entities are equal exactly when their indices and generations are.
    pub broadcast proof fn lemma_eq(a: Entity, b: Entity)
        ensures
            #![trigger a.index(), b.index()]
            (a == b) <==> (a.index() == b.index() && a.gen() == b.gen()),
    {
    }

    /// Returns the raw index of the entity.
    pub fn id(&self) -> (r: u32)
        ensures
            r == self.index(),
    {
        self.id
    }

    /// Returns the generation of the entity.
    pub fn generation(&self) -> (r: u32)
        ensures
            r == self.gen(),
    {
        self.generation
    }
}

/// The facts about entity parts that other modules rely on.
pub broadcast group group_entity {
    Entity::lemma_parts,
    Entity::lemma_eq,
}

/// What the free-id queue holds, front first.
pub uninterp spec fn queued_ids(q: SegQueue<u32>) -> Seq<u32>;

#[verifier::external_type_specification]
#[verifier::external_body]
#[verifier::reject_recursive_types(T)]
pub struct ExSegQueue<T>(SegQueue<T>);

/// Calls `crossbeam_queue::SegQueue::new`, which creates an empty unbounded
/// queue.
#[verifier::external_body]
fn id_queue_new() -> (q: SegQueue<u32>)
    ensures
        queued_ids(q) == Seq::<u32>::empty(),
{
    SegQueue::new()
}

/// Calls `crossbeam_queue::SegQueue::push_mut`, which appends `id` at the
/// tail of the queue.
#[verifier::external_body]
fn id_queue_push(q: &mut SegQueue<u32>, id: u32)
    ensures
        queued_ids(*final(q)) == queued_ids(*old(q)).push(id),
{
    q.push_mut(id)
}

/// Calls `crossbeam_queue::SegQueue::pop_mut`, which removes and returns the
/// head of the queue, or returns `None` and leaves the queue as it is when
/// it is empty.
#[verifier::external_body]
fn id_queue_pop(q: &mut SegQueue<u32>) -> (r: Option<u32>)
    ensures
        queued_ids(*old(q)).len() == 0 ==> r is None && queued_ids(*final(q)) == queued_ids(*old(q)),
        queued_ids(*old(q)).len() > 0 ==> r == Some(queued_ids(*old(q))[0]) && queued_ids(*final(q))
            == queued_ids(*old(q)).drop_first(),
{
    q.pop_mut()
}

#[verifier::external_type_specification]
#[verifier::external_body]
pub struct ExRawRwLock(RawRwLock);

#[verifier::external_type_specification]
#[verifier::external_body]
#[verifier::reject_recursive_types(R)]
#[verifier::reject_recursive_types(T)]
pub struct ExLockApiRwLock<R, T: ?Sized>(parking_lot::lock_api::RwLock<R, T>);

/// The generation table that the lock protects.
pub uninterp spec fn locked_generations(l: RwLock<Vec<u32>>) -> Seq<u32>;

/// Calls `parking_lot::RwLock::new`, which creates an unlocked lock around
/// `v`.
#[verifier::external_body]
fn generations_lock_new(v: Vec<u32>) -> (l: RwLock<Vec<u32>>)
    ensures
        locked_generations(l) == v@,
{
    RwLock::new(v)
}

/// Calls `parking_lot::RwLock::get_mut`, which borrows the protected vector
/// mutably without locking (the borrow of the lock is exclusive); what is
/// written through the borrow is what the lock then holds.
#[verifier::external_body]
fn generations_mut(l: &mut RwLock<Vec<u32>>) -> (v: &mut Vec<u32>)
    ensures
        (*v)@ == locked_generations(*old(l)),
        locked_generations(*final(l)) == (*final(v))@,
{
    l.get_mut()
}

/// Calls `parking_lot::RwLock::read`, which takes a shared lock, and reads
/// entry `i` of the protected vector through the guard, or `None` when the
/// vector is shorter.
#[verifier::external_body]
fn generation_of(l: &RwLock<Vec<u32>>, i: usize) -> (r: Option<u32>)
    ensures
        r == (if i < locked_generations(*l).len() {
            Some(locked_generations(*l)[i as int])
        } else {
            None::<u32>
        }),
{
    l.read().get(i).copied()
}

/// The abstract state of an [`EntityAllocator`]: the generation of every
/// index handed out so far, the indices waiting for reuse (front first) and
/// the next never-used index.
pub struct AllocState {
    pub generations: Seq<u32>,
    pub free: Seq<u32>,
    pub next_id: u32,
}

/// The next fresh index after `n`, wrapping around as the counter does.
pub open spec fn next_fresh(n: u32) -> u32 {
    if n == u32::MAX {
        0
    } else {
        (n + 1) as u32
    }
}

/// `gens` extended with zero generations so that it covers index `id`.
pub open spec fn cover(gens: Seq<u32>, id: u32) -> Seq<u32> {
    if id < gens.len() {
        gens
    } else {
        gens + Seq::new((id + 1 - gens.len()) as nat, |i: int| 0u32)
    }
}

/// The index that the next allocation takes: the head of the free queue
/// when there is one, the fresh counter otherwise.
pub open spec fn next_index(s: AllocState) -> u32 {
    if s.free.len() > 0 {
        s.free[0]
    } else {
        s.next_id
    }
}

/// The state after one allocation.
pub open spec fn allocate_state(s: AllocState) -> AllocState {
    let id = next_index(s);
    AllocState {
        generations: cover(s.generations, id),
        free: if s.free.len() > 0 { s.free.drop_first() } else { s.free },
        next_id: if s.free.len() > 0 { s.next_id } else { next_fresh(s.next_id) },
    }
}

/// The entity that one allocation returns: the chosen index with its
/// current generation.
pub open spec fn allocated_entity(s: AllocState) -> Entity {
    let id = next_index(s);
    Entity::spec_new(id, cover(s.generations, id)[id as int])
}

/// Whether `e` is the current handle of its index: the index was handed out
/// and its generation has not moved on since.
pub open spec fn is_current(s: AllocState, e: Entity) -> bool {
    e.index() < s.generations.len() && s.generations[e.index() as int] == e.gen()
}

/// Whether deallocating `e` would overflow its generation counter.
pub open spec fn deallocate_overflows(s: AllocState, e: Entity) -> bool {
    is_current(s, e) && e.gen() == u32::MAX
}

/// The state after deallocating `e`: a current handle has its generation
/// bumped and its index queued for reuse; anything else changes nothing.
pub open spec fn deallocate_state(s: AllocState, e: Entity) -> AllocState {
    if is_current(s, e) {
        AllocState {
            generations: s.generations.update(e.index() as int, (e.gen() + 1) as u32),
            free: s.free.push(e.index()),
            next_id: s.next_id,
        }
    } else {
        s
    }
}

/// The well-formedness of an allocator state: queued indices have
/// generations and the fresh counter never passes the generation table.
pub open spec fn alloc_wf(s: AllocState) -> bool {
    &&& s.next_id <= s.generations.len()
    &&& s.generations.len() <= u32::MAX as nat + 1
    &&& forall|i: int| 0 <= i < s.free.len() ==> #[trigger] s.free[i] < s.generations.len()
}

/// A state whose queue and counter agree with the generation table: every
/// handed-out index has a generation, the counter equals the table's length,
/// and each index waits in the queue at most once.
pub open spec fn tidy(s: AllocState) -> bool {
    &&& alloc_wf(s)
    &&& s.next_id as nat == s.generations.len()
    &&& s.free.no_duplicates()
}

/// Whether `e` is a live handle: its index was handed out and is not waiting
/// for reuse, and its generation is the current one.
pub open spec fn is_live(s: AllocState, e: Entity) -> bool {
    &&& is_current(s, e)
    &&& e.index() < s.next_id
    &&& !s.free.contains(e.index())
}

/// Deallocating a handle twice: the second call finds it stale.
pub proof fn law_deallocate_twice(s: AllocState, e: Entity)
    requires
        alloc_wf(s),
        !deallocate_overflows(s, e),
    ensures
        !is_current(deallocate_state(s, e), e),
{
}

/// A handle whose generation is behind that of its index stays stale
/// through any allocation or deallocation.
pub proof fn law_stale_stays_stale(s: AllocState, e: Entity, other: Entity)
    requires
        alloc_wf(s),
        e.index() < s.generations.len(),
        e.gen() < s.generations[e.index() as int],
        !deallocate_overflows(s, other),
    ensures
        e.index() < allocate_state(s).generations.len(),
        e.gen() < allocate_state(s).generations[e.index() as int],
        e.index() < deallocate_state(s, other).generations.len(),
        e.gen() < deallocate_state(s, other).generations[e.index() as int],
{
    broadcast use group_entity;
    let id = next_index(s);
    assert(cover(s.generations, id)[e.index() as int] == s.generations[e.index() as int]);
}

/// Allocation hands out a current handle.
pub proof fn law_allocate_current(s: AllocState)
    requires
        alloc_wf(s),
    ensures
        is_current(allocate_state(s), allocated_entity(s)),
{
    broadcast use group_entity;
    let id = next_index(s);
    if s.free.len() > 0 {
        assert(s.free[0] < s.generations.len());
    }
}

/// In a tidy state, allocation returns a handle that is live afterwards,
/// whose index no live handle held before, and every handle live before
/// stays live.
pub proof fn law_allocate_fresh(s: AllocState, other: Entity)
    requires
        tidy(s),
        s.next_id < u32::MAX,
    ensures
        tidy(allocate_state(s)),
        is_live(allocate_state(s), allocated_entity(s)),
        is_live(s, other) ==> other.index() != allocated_entity(s).index(),
        is_live(s, other) ==> is_live(allocate_state(s), other),
{
    broadcast use group_entity;
    let t = allocate_state(s);
    let id = next_index(s);
    if s.free.len() > 0 {
        assert(s.free[0] < s.generations.len());
        assert(s.free.contains(s.free[0]));
        assert forall|i: int, j: int| 0 <= i < j < t.free.len() implies t.free[i] != t.free[j] by {
            assert(t.free[i] == s.free[i + 1]);
            assert(t.free[j] == s.free[j + 1]);
        }
        assert(!t.free.contains(id)) by {
            if t.free.contains(id) {
                let k = choose|k: int| 0 <= k < t.free.len() && t.free[k] == id;
                assert(s.free[k + 1] == s.free[0]);
            }
        }
        if is_live(s, other) {
            assert forall|k: int| 0 <= k < t.free.len() implies t.free[k] != other.index() by {
                assert(t.free[k] == s.free[k + 1]);
                assert(s.free.contains(s.free[k + 1]));
            }
        }
    } else {
        assert(t.generations.len() == s.generations.len() + 1);
    }
    assert(t.generations[id as int] == allocated_entity(s).gen());
    if is_live(s, other) {
        assert(cover(s.generations, id)[other.index() as int] == s.generations[other.index() as int]);
    }
}

/// In a tidy state, deallocating a live handle keeps the state tidy, leaves
/// that handle dead and every other live handle live.
pub proof fn law_deallocate_live(s: AllocState, e: Entity, other: Entity)
    requires
        tidy(s),
        is_live(s, e),
        !deallocate_overflows(s, e),
    ensures
        tidy(deallocate_state(s, e)),
        !is_live(deallocate_state(s, e), e),
        is_live(s, other) && other.index() != e.index() ==> is_live(deallocate_state(s, e), other),
{
    broadcast use group_entity;
    let t = deallocate_state(s, e);
    assert forall|i: int, j: int| 0 <= i < j < t.free.len() implies t.free[i] != t.free[j] by {
        if j == s.free.len() {
            assert(s.free.contains(s.free[i]));
        }
    }
    assert forall|i: int| 0 <= i < t.free.len() implies #[trigger] t.free[i] < t.generations.len() by {
        if i < s.free.len() {
            assert(t.free[i] == s.free[i]);
        }
    }
    if is_live(s, other) && other.index() != e.index() {
        assert forall|k: int| 0 <= k < t.free.len() implies t.free[k] != other.index() by {
            if k < s.free.len() {
                assert(s.free.contains(s.free[k]));
            }
        }
    }
}

/// Freed indices are reused first, in the order they were freed, each under
/// the next generation: when nothing else waits for reuse, the allocation
/// after deallocating a live handle returns its index with the generation
/// one higher.
pub proof fn law_reuse_after_deallocate(s: AllocState, e: Entity)
    requires
        tidy(s),
        is_live(s, e),
        !deallocate_overflows(s, e),
        s.free.len() == 0,
    ensures
        allocated_entity(deallocate_state(s, e)) == Entity::spec_new(e.index(), (e.gen() + 1) as u32),
{
    broadcast use group_entity;
    let t = deallocate_state(s, e);
    assert(t.free[0] == e.index());
    assert(cover(t.generations, e.index()) == t.generations);
}

/// With no freed index waiting, allocating a handle, deallocating it and
/// allocating again returns the same index under the next generation, so
/// the first handle stays stale.
pub proof fn law_allocate_free_allocate(s: AllocState)
    requires
        alloc_wf(s),
        s.free.len() == 0,
        !deallocate_overflows(allocate_state(s), allocated_entity(s)),
    ensures
        is_current(allocate_state(s), allocated_entity(s)),
        allocated_entity(deallocate_state(allocate_state(s), allocated_entity(s))) == Entity::spec_new(
            allocated_entity(s).index(),
            (allocated_entity(s).gen() + 1) as u32,
        ),
        allocated_entity(deallocate_state(allocate_state(s), allocated_entity(s))) != allocated_entity(s),
{
    broadcast use group_entity;
    law_allocate_current(s);
    let e = allocated_entity(s);
    let s1 = allocate_state(s);
    let s2 = deallocate_state(s1, e);
    assert(s2.free[0] == e.index());
    assert(cover(s2.generations, e.index()) == s2.generations);
}

/// One call on an allocator.
pub enum AllocOp {
    Allocate,
    Deallocate(Entity),
}

/// The state after one call.
pub open spec fn apply_op(s: AllocState, op: AllocOp) -> AllocState {
    match op {
        AllocOp::Allocate => allocate_state(s),
        AllocOp::Deallocate(x) => deallocate_state(s, x),
    }
}

/// The state after the calls `ops`, in order.
pub open spec fn run_ops(s: AllocState, ops: Seq<AllocOp>) -> AllocState
    decreases ops.len(),
{
    if ops.len() == 0 {
        s
    } else {
        apply_op(run_ops(s, ops.drop_last()), ops.last())
    }
}

/// Whether no deallocation among `ops` overflows a generation counter.
pub open spec fn ops_fit(s: AllocState, ops: Seq<AllocOp>) -> bool {
    forall|k: int|
        0 <= k < ops.len() ==> (#[trigger] ops[k] matches AllocOp::Deallocate(x) ==> !deallocate_overflows(
            run_ops(s, ops.take(k)),
            x,
        ))
}

/// Whether `e` is stale: its index was handed out and its generation has
/// moved past `e`'s.
pub open spec fn is_stale(s: AllocState, e: Entity) -> bool {
    e.index() < s.generations.len() && e.gen() < s.generations[e.index() as int]
}

/// One call keeps the allocator state well formed.
proof fn lemma_alloc_wf_step(s: AllocState, op: AllocOp)
    requires
        alloc_wf(s),
        op matches AllocOp::Deallocate(x) ==> !deallocate_overflows(s, x),
    ensures
        alloc_wf(apply_op(s, op)),
{
    match op {
        AllocOp::Allocate => {
            let t = allocate_state(s);
            if s.free.len() > 0 {
                assert(s.free[0] < s.generations.len());
                assert forall|i: int| 0 <= i < t.free.len() implies #[trigger] t.free[i] < t.generations.len() by {
                    assert(t.free[i] == s.free[i + 1]);
                }
            }
        },
        AllocOp::Deallocate(x) => {
            let t = deallocate_state(s, x);
            if is_current(s, x) {
                assert forall|i: int| 0 <= i < t.free.len() implies #[trigger] t.free[i] < t.generations.len() by {
                    if i < s.free.len() {
                        assert(t.free[i] == s.free[i]);
                    }
                }
            }
        },
    }
}

/// The calls of a prefix of `ops` fit when those of `ops` do.
proof fn lemma_ops_fit_prefix(s: AllocState, ops: Seq<AllocOp>, n: int)
    requires
        ops_fit(s, ops),
        0 <= n <= ops.len(),
    ensures
        ops_fit(s, ops.take(n)),
{
    assert forall|k: int| 0 <= k < ops.take(n).len() implies (#[trigger] ops.take(n)[k] matches AllocOp::Deallocate(
        x,
    ) ==> !deallocate_overflows(run_ops(s, ops.take(n).take(k)), x)) by {
        assert(ops.take(n)[k] == ops[k]);
        assert(ops.take(n).take(k) =~= ops.take(k));
    }
}

/// A stale handle stays stale through any calls, and the state stays well
/// formed.
proof fn lemma_ops_keep_stale(s: AllocState, e: Entity, ops: Seq<AllocOp>)
    requires
        alloc_wf(s),
        is_stale(s, e),
        ops_fit(s, ops),
    ensures
        alloc_wf(run_ops(s, ops)),
        is_stale(run_ops(s, ops), e),
    decreases ops.len(),
{
    if ops.len() > 0 {
        let n = ops.len() - 1;
        let pre = ops.drop_last();
        assert(ops.take(n) =~= pre);
        lemma_ops_fit_prefix(s, ops, n);
        lemma_ops_keep_stale(s, e, pre);
        let t = run_ops(s, pre);
        assert(ops[n] == ops.last());
        match ops.last() {
            AllocOp::Allocate => {
                law_stale_stays_stale(t, e, e);
            },
            AllocOp::Deallocate(x) => {
                law_stale_stays_stale(t, e, x);
            },
        }
        lemma_alloc_wf_step(t, ops.last());
    }
}

/// A stale handle is never handed out again: no allocation in any later
/// sequence of calls returns it, and it is still stale after them.
pub proof fn law_stale_never_handed_out(s: AllocState, e: Entity, ops: Seq<AllocOp>)
    requires
        alloc_wf(s),
        is_stale(s, e),
        ops_fit(s, ops),
    ensures
        forall|k: int|
            0 <= k < ops.len() && #[trigger] ops[k] is Allocate ==> allocated_entity(run_ops(s, ops.take(k))) != e,
        is_stale(run_ops(s, ops), e),
{
    broadcast use group_entity;
    assert forall|k: int| 0 <= k < ops.len() && #[trigger] ops[k] is Allocate implies allocated_entity(
        run_ops(s, ops.take(k)),
    ) != e by {
        lemma_ops_fit_prefix(s, ops, k);
        lemma_ops_keep_stale(s, e, ops.take(k));
        let t = run_ops(s, ops.take(k));
        let id = next_index(t);
        if id == e.index() {
            assert(cover(t.generations, id) == t.generations);
        }
    }
    lemma_ops_keep_stale(s, e, ops);
}

/// A handle freed by deallocation (as despawning does) is never handed out
/// again by any later allocation.
pub proof fn law_deallocated_never_handed_out(s: AllocState, e: Entity, ops: Seq<AllocOp>)
    requires
        alloc_wf(s),
        is_current(s, e),
        !deallocate_overflows(s, e),
        ops_fit(deallocate_state(s, e), ops),
    ensures
        forall|k: int|
            0 <= k < ops.len() && #[trigger] ops[k] is Allocate ==> allocated_entity(
                run_ops(deallocate_state(s, e), ops.take(k)),
            ) != e,
{
    broadcast use group_entity;
    lemma_alloc_wf_step(s, AllocOp::Deallocate(e));
    law_stale_never_handed_out(deallocate_state(s, e), e, ops);
}

/// Allocation takes the index that has waited longest for reuse, under its
/// current generation, and a fresh index only when none waits; deallocating
/// a current handle bumps its generation and makes its index wait last.
pub proof fn law_allocation_order(s: AllocState, e: Entity)
    requires
        alloc_wf(s),
    ensures
        s.free.len() > 0 ==> allocated_entity(s) == Entity::spec_new(s.free[0], s.generations[s.free[0] as int]),
        s.free.len() > 0 ==> allocate_state(s).free == s.free.drop_first(),
        s.free.len() > 0 ==> allocate_state(s).next_id == s.next_id,
        s.free.len() == 0 && s.next_id < s.generations.len() ==> allocated_entity(s) == Entity::spec_new(
            s.next_id,
            s.generations[s.next_id as int],
        ),
        s.free.len() == 0 && s.next_id == s.generations.len() ==> allocated_entity(s) == Entity::spec_new(s.next_id, 0),
        s.free.len() == 0 && s.next_id < u32::MAX ==> allocate_state(s).next_id == s.next_id + 1,
        is_current(s, e) && e.gen() < u32::MAX ==> deallocate_state(s, e).free == s.free.push(e.index())
            && deallocate_state(s, e).generations[e.index() as int] == e.gen() + 1,
        !is_current(s, e) ==> deallocate_state(s, e) == s,
{
    if s.free.len() > 0 {
        assert(s.free[0] < s.generations.len());
        assert(cover(s.generations, s.free[0]) == s.generations);
    } else if s.next_id < s.generations.len() {
        assert(cover(s.generations, s.next_id) == s.generations);
    }
}

/// Freed indices are reused first come, first served: after two live
/// handles are deallocated, the next two allocations take the first one's
/// index and then the second one's, each under the next generation.
pub proof fn law_reuse_in_order(s: AllocState, a: Entity, b: Entity)
    requires
        tidy(s),
        s.free.len() == 0,
        is_live(s, a),
        is_live(s, b),
        a.index() != b.index(),
        a.gen() < u32::MAX,
        b.gen() < u32::MAX,
    ensures
        ({
            let s2 = deallocate_state(deallocate_state(s, a), b);
            &&& allocated_entity(s2) == Entity::spec_new(a.index(), (a.gen() + 1) as u32)
            &&& allocated_entity(allocate_state(s2)) == Entity::spec_new(b.index(), (b.gen() + 1) as u32)
        }),
{
    broadcast use group_entity;
    let s1 = deallocate_state(s, a);
    assert(is_current(s1, b));
    let s2 = deallocate_state(s1, b);
    assert(s2.free[0] == a.index());
    assert(cover(s2.generations, a.index()) == s2.generations);
    let s3 = allocate_state(s2);
    assert(s3.free[0] == b.index());
    assert(cover(s3.generations, b.index()) == s3.generations);
    assert(s3.generations[b.index() as int] == s2.generations[b.index() as int]);
}

/// Allocator for entity IDs with generation counters.
///
/// Indices of deallocated entities wait in a FIFO queue and are reused before
/// any fresh index; every deallocation bumps the index's generation so that
/// old handles are recognised as stale.
///
/// The free indices sit in a lock-free queue and the generation table behind
/// a reader-writer lock, so that handles can be checked from shared
/// references; changes go through `&mut self`.
pub struct EntityAllocator {
    generations: RwLock<Vec<u32>>,
    free_ids: SegQueue<u32>,
    next_id: u32,
}

impl View for EntityAllocator {
    type V = AllocState;

    closed spec fn view(&self) -> AllocState {
        AllocState {
            generations: locked_generations(self.generations),
            free: queued_ids(self.free_ids),
            next_id: self.next_id,
        }
    }
}

impl EntityAllocator {
    /// The allocator's invariant.
    pub open spec fn wf(&self) -> bool {
        &&& alloc_wf(self@)
        &&& self@.generations.len() <= usize::MAX
    }

    /// Creates a new entity allocator.
    pub fn new() -> (r: Self)
        ensures
            r.wf(),
            r@.generations == Seq::<u32>::empty(),
            r@.free == Seq::<u32>::empty(),
            r@.next_id == 0,
    {
        EntityAllocator {
            generations: generations_lock_new(Vec::with_capacity(1024)),
            free_ids: id_queue_new(),
            next_id: 0,
        }
    }

    /// Allocates a new unique entity.
    pub fn allocate(&mut self) -> (e: Entity)
        requires
            old(self).wf(),
            next_index(old(self)@) < usize::MAX,
        ensures
            final(self).wf(),
            final(self)@ == allocate_state(old(self)@),
            e == allocated_entity(old(self)@),
    {
        let ghost s = self@;
        let popped = id_queue_pop(&mut self.free_ids);
        let id = match popped {
            Some(free_id) => free_id,
            None => {
                let fresh = self.next_id;
                self.next_id = self.next_id.wrapping_add(1);
                fresh
            },
        };
        let gens = generations_mut(&mut self.generations);
        if id as usize >= gens.len() {
            gens.resize((id as usize) + 1, 0);
            proof {
                assert(gens@ =~= cover(s.generations, id));
            }
        }
        let generation = gens[id as usize];
        proof {
            assert(gens@ =~= cover(s.generations, id));
        }
        proof {
            assert(self@.generations =~= cover(s.generations, id));
            if s.free.len() > 0 {
                assert forall|i: int| 0 <= i < self@.free.len() implies #[trigger] self@.free[i]
                    < self@.generations.len() by {
                    assert(self@.free[i] == s.free[i + 1]);
                }
            }
        }
        Entity { id, generation }
    }

    /// Deallocates an entity, allowing its ID to be reused.
    ///
    /// Returns `true` if the entity was valid and deallocated, `false` otherwise.
    pub fn deallocate(&mut self, entity: Entity) -> (r: bool)
        requires
            old(self).wf(),
            !deallocate_overflows(old(self)@, entity),
        ensures
            final(self).wf(),
            r == is_current(old(self)@, entity),
            final(self)@ == deallocate_state(old(self)@, entity),
    {
        let ghost s = self@;
        let gens = generations_mut(&mut self.generations);
        if entity.id as usize >= gens.len() {
            return false;
        }
        let current_gen = gens[entity.id as usize];
        if current_gen != entity.generation {
            return false;
        }
        gens.set(entity.id as usize, current_gen + 1);
        proof {
            assert(gens@ =~= s.generations.update(entity.id as int, (entity.generation + 1) as u32));
        }
        id_queue_push(&mut self.free_ids, entity.id);
        proof {
            assert(self@.generations =~= s.generations.update(entity.id as int, (entity.generation + 1) as u32));
            assert forall|i: int| 0 <= i < self@.free.len() implies #[trigger] self@.free[i]
                < self@.generations.len() by {
                if i < s.free.len() {
                    assert(self@.free[i] == s.free[i]);
                }
            }
        }
        true
    }

    /// Whether deallocating `entity` would overflow its generation counter
    /// (it is the current handle of its index and its generation is the
    /// largest there is).
    pub fn deallocation_overflows(&self, entity: Entity) -> (r: bool)
        ensures
            r == deallocate_overflows(self@, entity),
    {
        match generation_of(&self.generations, entity.id as usize) {
            Some(current) => current == entity.generation && entity.generation == u32::MAX,
            None => false,
        }
    }

    /// Whether the fresh counter is below `usize::MAX`, which is enough for
    /// the next allocation's index to be below it too.
    pub fn next_index_fits(&self) -> (r: bool)
        requires
            self.wf(),
        ensures
            r == (self@.next_id < usize::MAX),
            r ==> next_index(self@) < usize::MAX,
    {
        proof {
            if self@.free.len() > 0 {
                assert(self@.free[0] < self@.generations.len());
            }
        }
        (self.next_id as usize) < usize::MAX
    }
}

impl Default for EntityAllocator {
    /// An allocator that has handed out nothing.
    fn default() -> (r: Self)
        ensures
            r.wf(),
            r@.generations == Seq::<u32>::empty(),
            r@.free == Seq::<u32>::empty(),
            r@.next_id == 0,
    {
        EntityAllocator::new()
    }
}

} // verus!
