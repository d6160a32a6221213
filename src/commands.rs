//! The deferred command buffer: structural changes queued while systems run,
//! applied in order at the end of the frame.
use vstd::prelude::*;
use crate::components::{Component, Components, EntityId};
use crate::world::World;

verus! {

pub enum Command {
    /// Create an entity owning these components.
    Spawn(Components),
    /// Attach a component to an entity, if it is still live.
    Attach(EntityId, Component),
    /// Remove an entity, if it is still live.
    Remove(EntityId),
    /// Remove every entity.
    Clear,
}

pub struct CommandBuffer {
    pub commands: Vec<Command>,
}

/// The number of entities that `cmds` create.
pub open spec fn spawn_count(cmds: Seq<Command>) -> nat
    decreases cmds.len(),
{
    if cmds.len() == 0 {
        0
    } else {
        spawn_count(cmds.drop_last()) + if cmds.last() is Spawn {
            1nat
        } else {
            0nat
        }
    }
}

/// The world after `cmds`, when the entities they create get the ids of
/// `ids`, in order.
pub open spec fn replay(w: Map<EntityId, Components>, cmds: Seq<Command>, ids: Seq<EntityId>) -> Map<
    EntityId,
    Components,
>
    decreases cmds.len(),
{
    if cmds.len() == 0 {
        w
    } else {
        let prev = cmds.drop_last();
        match cmds.last() {
            Command::Spawn(rec) => replay(w, prev, ids.drop_last()).insert(ids.last(), rec),
            Command::Attach(e, c) => {
                let before = replay(w, prev, ids);
                if before.contains_key(e) {
                    before.insert(e, before[e].with_spec(c))
                } else {
                    before
                }
            },
            Command::Remove(e) => replay(w, prev, ids).remove(e),
            Command::Clear => Map::empty(),
        }
    }
}

/// Every id of `ids` is new when its entity is created.
pub open spec fn fresh_ids(w: Map<EntityId, Components>, cmds: Seq<Command>, ids: Seq<EntityId>) -> bool
    decreases cmds.len(),
{
    if cmds.len() == 0 {
        true
    } else {
        let prev = cmds.drop_last();
        match cmds.last() {
            Command::Spawn(_) => fresh_ids(w, prev, ids.drop_last()) && !replay(
                w,
                prev,
                ids.drop_last(),
            ).contains_key(ids.last()),
            _ => fresh_ids(w, prev, ids),
        }
    }
}

impl CommandBuffer {
    pub fn new() -> (b: CommandBuffer)
        ensures
            b.commands@ == Seq::<Command>::empty(),
    {
        CommandBuffer { commands: Vec::new() }
    }

    pub fn spawn(&mut self, rec: Components)
        ensures
            final(self).commands@ == old(self).commands@.push(Command::Spawn(rec)),
    {
        self.commands.push(Command::Spawn(rec));
    }

    pub fn attach(&mut self, e: EntityId, c: Component)
        ensures
            final(self).commands@ == old(self).commands@.push(Command::Attach(e, c)),
    {
        self.commands.push(Command::Attach(e, c));
    }

    pub fn remove(&mut self, e: EntityId)
        ensures
            final(self).commands@ == old(self).commands@.push(Command::Remove(e)),
    {
        self.commands.push(Command::Remove(e));
    }

    pub fn clear_world(&mut self)
        ensures
            final(self).commands@ == old(self).commands@.push(Command::Clear),
    {
        self.commands.push(Command::Clear);
    }

    pub fn len(&self) -> (n: usize)
        ensures
            n == self.commands@.len(),
    {
        self.commands.len()
    }

    /// Applies the queued commands in order and empties the buffer.  The
    /// result lists the ids of the entities created, in order.
    pub fn apply(&mut self, world: &mut World) -> (ids: Vec<EntityId>)
        requires
            old(world).wf(),
        ensures
            final(world).wf(),
            final(self).commands@ == Seq::<Command>::empty(),
            ids@.len() == spawn_count(old(self).commands@),
            final(world)@ == replay(old(world)@, old(self).commands@, ids@),
            fresh_ids(old(world)@, old(self).commands@, ids@),
    {
        let ghost w0 = world@;
        let ghost cmds = self.commands@;
        let mut pending: Vec<Command> = Vec::new();
        std::mem::swap(&mut pending, &mut self.commands);
        let mut ids: Vec<EntityId> = Vec::new();
        let mut i: usize = 0;
        let n = pending.len();
        while pending.len() > 0
            invariant
                world.wf(),
                n == cmds.len(),
                i + pending@.len() == n,
                pending@ == cmds.subrange(i as int, n as int),
                ids@.len() == spawn_count(cmds.subrange(0, i as int)),
                world@ == replay(w0, cmds.subrange(0, i as int), ids@),
                fresh_ids(w0, cmds.subrange(0, i as int), ids@),
                self.commands@ == Seq::<Command>::empty(),
            decreases pending@.len(),
        {
            let cmd = pending.remove(0);
            let ghost pre = cmds.subrange(0, i as int);
            let ghost post = cmds.subrange(0, i + 1);
            let ghost ids0 = ids@;
            proof {
                assert(cmd == cmds[i as int]);
                assert(post.drop_last() =~= pre);
                assert(post.last() == cmd);
            }
            match cmd {
                Command::Spawn(rec) => {
                    let e = world.spawn(rec);
                    ids.push(e);
                    proof {
                        assert(ids@.drop_last() =~= ids0);
                    }
                },
                Command::Attach(e, c) => {
                    world.attach(e, c);
                },
                Command::Remove(e) => {
                    world.remove(e);
                },
                Command::Clear => {
                    world.clear();
                },
            }
            i = i + 1;
            proof {
                assert(pending@ =~= cmds.subrange(i as int, n as int));
            }
        }
        proof {
            assert(cmds.subrange(0, n as int) =~= cmds);
        }
        ids
    }
}

} // verus!
