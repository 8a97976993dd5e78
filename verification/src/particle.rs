//! Particle descriptors: a particle value carries the kind of visual effect
//! it stands for.

use vstd::prelude::*;

verus! {

/// The kind of visual effect a particle renders as.
#[derive(Clone, Copy, Debug, PartialEq, Eq, Structural)]
pub enum ParticleType {
    AngryVillager,
    Ash,
    Bubble,
    Cloud,
    Crit,
    DrippingLava,
    Explosion,
    Flame,
    HappyVillager,
    Heart,
    Note,
    Portal,
    Smoke,
    Splash,
}

/// A particle to be shown in the world.
pub struct Particle {
    particle_type: ParticleType,
}

impl Particle {
    /// The kind this particle was built with, for use in contracts.
    pub closed spec fn spec_type(&self) -> ParticleType {
        self.particle_type
    }

    /// Wraps a particle kind into a particle descriptor.
    pub fn new(particle_type: ParticleType) -> (r: Self)
        ensures
            r.spec_type() == particle_type,
    {
        Self { particle_type }
    }

    /// The kind of effect this particle renders as.
    pub fn get_type(&self) -> (r: ParticleType)
        ensures
            r == self.spec_type(),
    {
        self.particle_type
    }
}

} // verus!
