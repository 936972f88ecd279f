//! The fixed-size particle population and how it is spawned.
use vstd::prelude::*;
use crate::fixed::SCALE;
use crate::math::{screen_to_world, screen_to_world_spec, Vec2};
use crate::particle::Particle;
use crate::{SCREEN_HEIGHT, SCREEN_WIDTH};

verus! {

#[verifier::external_type_specification]
#[verifier::external_body]
pub struct ExThreadRng(rand::rngs::ThreadRng);

/// Relies on rand::thread_rng: a handle to this thread's generator.
#[verifier::external_body]
fn thread_rng() -> rand::rngs::ThreadRng {
    rand::thread_rng()
}

/// Relies on rand::Rng::gen_range: a value of the half-open range `0..bound`,
/// which must not be empty.
#[verifier::external_body]
fn random_below(rng: &mut rand::rngs::ThreadRng, bound: u32) -> (r: u32)
    requires
        bound > 0,
    ensures
        r < bound,
{
    rand::Rng::gen_range(rng, 0..bound)
}

/// How the initial population is placed.
#[derive(Clone, Copy, Debug, PartialEq, Eq, Structural)]
pub enum SpawningMethod {
    /// Uniformly random pixels of the screen, x and y drawn independently.
    Random,
}

/// The particle spawned at pixel `(px, py)`: at rest, of unit mass, at the
/// pixel's world position.
pub open spec fn spawned_at(px: int, py: int) -> Particle {
    Particle {
        pos: screen_to_world_spec(px, py),
        vel: Vec2::zero_spec(),
        accel: Vec2::zero_spec(),
        mass: SCALE,
    }
}

/// A particle as spawned at some pixel of the screen.
pub open spec fn is_spawned(p: Particle) -> bool {
    exists|px: int, py: int|
        0 <= px < SCREEN_WIDTH && 0 <= py < SCREEN_HEIGHT && p == #[trigger] spawned_at(px, py)
}

/// The particle spawned at pixel `(px, py)`.
pub fn particle_at_pixel(px: u32, py: u32) -> (r: Particle)
    requires
        px < SCREEN_WIDTH,
        py < SCREEN_HEIGHT,
    ensures
        r == spawned_at(px as int, py as int),
        r.wf(),
{
    Particle::new(screen_to_world((px, py)), SCALE)
}

impl SpawningMethod {
    /// `count` particles placed by this method.
    pub fn get_particles(&self, count: usize) -> (r: Vec<Particle>)
        ensures
            r@.len() == count,
            forall|k: int| 0 <= k < count ==> is_spawned(#[trigger] r@[k]) && r@[k].wf(),
    {
        let mut rng = thread_rng();
        let mut particles: Vec<Particle> = Vec::new();
        let mut i: usize = 0;
        while i < count
            invariant
                i <= count,
                particles@.len() == i,
                forall|k: int| 0 <= k < i ==> is_spawned(#[trigger] particles@[k]) && particles@[k].wf(),
            decreases count - i,
        {
            let px = random_below(&mut rng, SCREEN_WIDTH);
            let py = random_below(&mut rng, SCREEN_HEIGHT);
            let p = particle_at_pixel(px, py);
            assert(is_spawned(p));
            particles.push(p);
            i += 1;
        }
        particles
    }
}

/// The population of the simulation; its size is fixed when it is made.
pub struct SceneData {
    pub(crate) particles: Vec<Particle>,
}

impl View for SceneData {
    type V = Seq<Particle>;

    closed spec fn view(&self) -> Seq<Particle> {
        self.particles@
    }
}

/// Every particle of a population is well formed; in particular its mass is positive.
pub open spec fn all_wf(s: Seq<Particle>) -> bool {
    forall|k: int| 0 <= k < s.len() ==> (#[trigger] s[k]).wf()
}

impl SceneData {
    /// The view of a population is its particle vector.
    pub(crate) proof fn lemma_view(&self)
        ensures
            self@ == self.particles@,
    {
    }

    pub open spec fn wf(&self) -> bool {
        all_wf(self@)
    }

    /// A population of `count` particles placed by `particle_spawning_method`.
    pub fn new(particle_spawning_method: SpawningMethod, count: usize) -> (r: SceneData)
        ensures
            r@.len() == count,
            r.wf(),
            forall|k: int| 0 <= k < count ==> is_spawned(#[trigger] r@[k]),
    {
        SceneData { particles: particle_spawning_method.get_particles(count) }
    }

    /// A population holding exactly `particles`.
    pub fn from_particles(particles: Vec<Particle>) -> (r: SceneData)
        requires
            all_wf(particles@),
        ensures
            r@ == particles@,
            r.wf(),
    {
        SceneData { particles }
    }

    pub fn particles(&self) -> (r: &Vec<Particle>)
        ensures
            r@ == self@,
    {
        &self.particles
    }

    pub fn len(&self) -> (r: usize)
        ensures
            r == self@.len(),
    {
        self.particles.len()
    }
}

} // verus!
