//! The double-buffered handoff of the render world: during extraction the
//! render world is lent to the simulation side and an idle world stands in for
//! it, so neither side ever sees the other's world mid-mutation and no world is
//! allocated per frame.

use vstd::prelude::*;

verus! {

pub struct WorldBridge<W> {
    render: W,
    idle: Option<W>,
}

impl<W> WorldBridge<W> {
    /// The world that the render stages own right now.
    pub closed spec fn render_world(&self) -> W {
        self.render
    }

    /// The world waiting to stand in for the render world, if it is not
    /// already standing in.
    pub closed spec fn idle_world(&self) -> Option<W> {
        self.idle
    }

    /// Whether the render world is lent out for extraction.
    pub open spec fn is_lent(&self) -> bool {
        self.idle_world() is None
    }

    pub fn new(render: W, idle: W) -> (r: Self)
        ensures
            r.render_world() == render,
            r.idle_world() == Some(idle),
    {
        WorldBridge { render, idle: Some(idle) }
    }

    /// Lends the render world out for extraction, the idle world taking its
    /// place. Refused (with `None`, nothing changed) while a world is lent.
    pub fn lend(&mut self) -> (lent: Option<W>)
        ensures
            old(self).is_lent() ==> lent is None && *final(self) == *old(self),
            !old(self).is_lent() ==> {
                &&& lent == Some(old(self).render_world())
                &&& final(self).render_world() == old(self).idle_world()->Some_0
                &&& final(self).is_lent()
            },
    {
        let mut slot: Option<W> = None;
        std::mem::swap(&mut slot, &mut self.idle);
        match slot {
            Some(mut world) => {
                std::mem::swap(&mut world, &mut self.render);
                Some(world)
            },
            None => None,
        }
    }

    /// Takes back the lent render world once extraction wrote into it; the
    /// stand-in becomes idle again. Refused (the world handed back in `Err`,
    /// nothing changed) when no world is lent.
    pub fn restore(&mut self, world: W) -> (r: Result<(), W>)
        ensures
            !old(self).is_lent() ==> r == Err::<(), W>(world) && *final(self) == *old(self),
            old(self).is_lent() ==> {
                &&& r is Ok
                &&& final(self).render_world() == world
                &&& final(self).idle_world() == Some(old(self).render_world())
            },
    {
        if self.idle.is_some() {
            return Err(world);
        }
        let mut world = world;
        std::mem::swap(&mut world, &mut self.render);
        self.idle = Some(world);
        Ok(())
    }

    /// The render world, for the render stages.
    pub fn render(&self) -> (r: &W)
        ensures
            *r == self.render_world(),
    {
        &self.render
    }

    /// The render world, for the render stages to process and clear.
    pub fn render_mut(&mut self) -> (r: &mut W)
        ensures
            *r == old(self).render_world(),
            final(self).render_world() == *final(r),
            final(self).idle_world() == old(self).idle_world(),
    {
        &mut self.render
    }
}

} // verus!
