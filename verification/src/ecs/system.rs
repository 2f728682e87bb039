use vstd::prelude::*;
use crate::ecs::world::World;

verus! {

/// Trait implemented by any logic that operates on the ECS `World`.
pub trait System {
    /// Whether one run of this system may take the world from `before` to
    /// `after`: what the implementation promises of its own logic. A system
    /// that says nothing of its logic allows any change.
    open spec fn may_run(&self, before: World, after: World) -> bool {
        true
    }

    /// Runs the system logic.
    fn run(&mut self, world: &mut World)
        ensures
            old(self).may_run(*old(world), *final(world)),
    ;
}

/// A system behind a box, so that systems of different types can share a
/// stage.
struct BoxedSystem(Box<dyn System>);

/// Calls `Box::new` on `system` and coerces the box to a trait object. Rust
/// dispatches every call through the box to `system`'s own implementation,
/// so the boxed system allows exactly the changes that `system` allows.
#[verifier::external_body]
fn box_system<S: System + 'static>(system: S) -> (b: BoxedSystem)
    ensures
        forall|before: World, after: World| #[trigger] b.0.may_run(before, after) == system.may_run(before, after),
{
    BoxedSystem(Box::new(system))
}

/// One system of a stage, tagged with the number of the `add_system` call
/// that added it.
struct StageEntry {
    system: BoxedSystem,
    tag: Ghost<nat>,
}

/// Whether running `systems` one after another, each once and in order, may
/// take the world from `before` to `after`.
spec fn runs_in_order(systems: Seq<StageEntry>, before: World, after: World) -> bool
    decreases systems.len(),
{
    if systems.len() == 0 {
        before == after
    } else {
        exists|mid: World|
            runs_in_order(systems.drop_last(), before, mid) && #[trigger] systems.last().system.0.may_run(mid, after)
    }
}

/// A collection of systems to be executed in order.
pub struct SystemStage {
    systems: Vec<StageEntry>,
}

impl SystemStage {
    /// The number of systems in the stage.
    pub closed spec fn count(&self) -> nat {
        self.systems@.len()
    }

    /// Which `add_system` call (counting from zero since the stage was
    /// created) added each system of the stage, in running order.
    pub closed spec fn order(&self) -> Seq<nat> {
        self.systems@.map_values(|e: StageEntry| e.tag@)
    }

    /// Whether running each system of the stage once, in the order they
    /// were added, may take the world from `before` to `after`.
    pub closed spec fn may_run(&self, before: World, after: World) -> bool {
        runs_in_order(self.systems@, before, after)
    }

    /// Whether one run of the system added last may take the world from
    /// `before` to `after`.
    pub closed spec fn last_may_run(&self, before: World, after: World) -> bool {
        self.systems@.last().system.0.may_run(before, after)
    }

    /// Creates a new empty stage.
    pub fn new() -> (r: Self)
        ensures
            r.count() == 0,
            r.order() == Seq::<nat>::empty(),
    {
        let r = SystemStage { systems: Vec::new() };
        assert(r.order() =~= Seq::<nat>::empty());
        r
    }

    /// Adds a system to the end of the stage: from now on the stage runs it
    /// once more, after all the systems added before.
    pub fn add_system<S: System + 'static>(&mut self, system: S)
        ensures
            final(self).count() == old(self).count() + 1,
            final(self).order() == old(self).order().push(old(self).count()),
            forall|b: World, a: World| #[trigger] final(self).last_may_run(b, a) == system.may_run(b, a),
            forall|b: World, a: World|
                final(self).may_run(b, a) <==> (exists|mid: World|
                    old(self).may_run(b, mid) && #[trigger] system.may_run(mid, a)),
    {
        let tag = Ghost(self.systems@.len());
        let entry = StageEntry { system: box_system(system), tag };
        self.push_entry(entry);
        proof {
            assert forall|b: World, a: World|
                self.may_run(b, a) <==> (exists|mid: World|
                    old(self).may_run(b, mid) && #[trigger] system.may_run(mid, a)) by {
                if self.may_run(b, a) {
                    let mid = choose|mid: World| old(self).may_run(b, mid) && #[trigger] self.last_may_run(mid, a);
                    assert(system.may_run(mid, a));
                }
                if exists|mid: World| old(self).may_run(b, mid) && #[trigger] system.may_run(mid, a) {
                    let mid = choose|mid: World| old(self).may_run(b, mid) && #[trigger] system.may_run(mid, a);
                    assert(self.last_may_run(mid, a));
                }
            }
        }
    }

    fn push_entry(&mut self, e: StageEntry)
        ensures
            final(self).systems@ == old(self).systems@.push(e),
            final(self).count() == old(self).count() + 1,
            final(self).order() == old(self).order().push(e.tag@),
            forall|b: World, a: World| #[trigger] final(self).last_may_run(b, a) == e.system.0.may_run(b, a),
            forall|b: World, a: World|
                final(self).may_run(b, a) <==> (exists|mid: World|
                    old(self).may_run(b, mid) && #[trigger] final(self).last_may_run(mid, a)),
    {
        let ghost pre = self.systems@;
        self.systems.push(e);
        proof {
            let post = self.systems@;
            assert(post.drop_last() =~= pre);
            assert(self.order() =~= old(self).order().push(e.tag@));
            assert forall|b: World, a: World|
                self.may_run(b, a) <==> (exists|mid: World|
                    runs_in_order(pre, b, mid) && #[trigger] self.last_may_run(mid, a)) by {
                if self.may_run(b, a) {
                    let mid = choose|mid: World|
                        runs_in_order(post.drop_last(), b, mid) && #[trigger] post.last().system.0.may_run(mid, a);
                    assert(self.last_may_run(mid, a));
                }
                if exists|mid: World| runs_in_order(pre, b, mid) && #[trigger] self.last_may_run(mid, a) {
                    let mid = choose|mid: World| runs_in_order(pre, b, mid) && #[trigger] self.last_may_run(mid, a);
                    assert(post.last().system.0.may_run(mid, a));
                    assert(runs_in_order(post, b, a));
                }
            }
        }
    }

    /// Runs all systems in order, each once. The stage keeps the same
    /// systems in the same order, each as its run left it, so a second run
    /// makes the same calls again.
    pub fn run(&mut self, world: &mut World)
        ensures
            final(self).count() == old(self).count(),
            final(self).order() == old(self).order(),
            old(self).may_run(*old(world), *final(world)),
    {
        let ghost start = *world;
        let ghost systems = self.systems@;
        let mut i: usize = 0;
        proof {
            assert(systems.subrange(0, 0) =~= Seq::<StageEntry>::empty());
        }
        while i < self.systems.len()
            invariant
                i <= self.systems@.len(),
                self.systems@.len() == systems.len(),
                forall|j: int| i <= j < systems.len() ==> self.systems@[j] == systems[j],
                forall|j: int| 0 <= j < systems.len() ==> #[trigger] self.systems@[j].tag == systems[j].tag,
                runs_in_order(systems.subrange(0, i as int), start, *world),
            decreases self.systems@.len() - i,
        {
            let ghost mid = *world;
            let ghost entry = systems[i as int];
            self.systems[i].system.0.run(world);
            proof {
                let pre = systems.subrange(0, i as int);
                let cur = systems.subrange(0, i + 1);
                assert(cur.drop_last() =~= pre);
                assert(cur.last() == entry);
                assert(entry.system.0.may_run(mid, *world));
                assert(runs_in_order(cur, start, *world));
            }
            i = i + 1;
        }
        proof {
            assert(systems.subrange(0, systems.len() as int) =~= systems);
            assert(self.order() =~= old(self).order());
        }
    }
}

} // verus!
