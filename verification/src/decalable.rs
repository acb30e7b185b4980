use vstd::prelude::*;

verus! {

/// The most decals one entity carries.
pub const DECAL_MAX_PER_ENTITY: usize = 16;

/// Marks an entity that decals are applied onto, and counts the decals it carries.
pub struct Decalable(usize);

impl Decalable {
    #[verifier::type_invariant]
    spec fn within_limit(self) -> bool {
        self.0 <= DECAL_MAX_PER_ENTITY
    }
}

impl View for Decalable {
    type V = nat;

    /// How many decals the entity carries.
    closed spec fn view(&self) -> nat {
        self.0 as nat
    }
}

impl Default for Decalable {
    /// An entity that carries no decal yet.
    fn default() -> (r: Self)
        ensures
            r@ == 0,
    {
        Decalable(0)
    }
}

impl Decalable {
    /// How many decals the entity carries; never more than `DECAL_MAX_PER_ENTITY`.
    pub fn applied(&self) -> (r: usize)
        ensures
            r == self@,
            r <= DECAL_MAX_PER_ENTITY,
    {
        proof {
            use_type_invariant(self);
        }
        self.0
    }

    /// Whether the entity may take another decal.
    pub fn has_room(&self) -> (r: bool)
        ensures
            r == (self@ < DECAL_MAX_PER_ENTITY),
    {
        self.0 < DECAL_MAX_PER_ENTITY
    }

    /// The depth layer of the next decal, `None` when the entity is full:
    /// the `n`-th decal of an entity lies on layer `n`, pushed off the surface
    /// along the normals by `n` times the decal offset so that decals do not
    /// fight for depth with the surface or with each other.
    pub fn next_layer(&self) -> (r: Option<usize>)
        ensures
            r == (if self@ < DECAL_MAX_PER_ENTITY { Some((self@ + 1) as usize) } else { None::<usize> }),
    {
        proof {
            use_type_invariant(self);
        }
        if self.0 < DECAL_MAX_PER_ENTITY {
            Some(self.0 + 1)
        } else {
            None
        }
    }

    /// Counts one more decal on the entity, which must have room for it.
    pub fn record_decal(&mut self)
        requires
            old(self)@ < DECAL_MAX_PER_ENTITY,
        ensures
            final(self)@ == old(self)@ + 1,
    {
        self.0 = self.0 + 1;
    }
}

} // verus!
