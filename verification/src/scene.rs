//! Putting a scene together: lists of spheres and of lights.

use crate::blocks::{LightSource, Material, Sphere};
use crate::fixed::Fixed;
use crate::voxel::Vox;
use vstd::prelude::*;

verus! {

/// A list of spheres in the making.
pub struct SphereBuilder {
    spheres: Vec<Sphere>,
}

impl View for SphereBuilder {
    type V = Seq<Sphere>;

    /// The spheres added so far, in the order in which they were added.
    closed spec fn view(&self) -> Seq<Sphere> {
        self.spheres@
    }
}

impl SphereBuilder {
    /// A builder that holds no sphere yet.
    pub fn new() -> (b: SphereBuilder)
        ensures
            b@ == Seq::<Sphere>::empty(),
    {
        SphereBuilder { spheres: Vec::new() }
    }

    /// The builder with one more sphere at the end.
    pub fn add(self, center: (Fixed, Fixed, Fixed), radius: Fixed, material: Material) -> (b:
        SphereBuilder)
        ensures
            b@ == self@.push((Sphere { center: Vox::new(center), radius, material })),
    {
        let mut b = self;
        b.spheres.push(Sphere { center: Vox::new(center), radius, material });
        b
    }

    /// The spheres, in the order in which they were added.
    pub fn build(self) -> (spheres: Vec<Sphere>)
        ensures
            spheres@ == self@,
    {
        self.spheres
    }
}

/// A list of lights in the making.
pub struct LightBuilder {
    lights: Vec<LightSource>,
}

impl View for LightBuilder {
    type V = Seq<LightSource>;

    /// The lights added so far, in the order in which they were added.
    closed spec fn view(&self) -> Seq<LightSource> {
        self.lights@
    }
}

impl LightBuilder {
    /// A builder that holds no light yet.
    pub fn new() -> (b: LightBuilder)
        ensures
            b@ == Seq::<LightSource>::empty(),
    {
        LightBuilder { lights: Vec::new() }
    }

    /// The builder with one more light at the end.
    pub fn add(self, center: (Fixed, Fixed, Fixed), intensity: Fixed) -> (b: LightBuilder)
        ensures
            b@ == self@.push((LightSource { position: Vox::new(center), intensity })),
    {
        let mut b = self;
        b.lights.push(LightSource { position: Vox::new(center), intensity });
        b
    }

    /// The lights, in the order in which they were added.
    pub fn build(self) -> (lights: Vec<LightSource>)
        ensures
            lights@ == self@,
    {
        self.lights
    }
}

} // verus!
