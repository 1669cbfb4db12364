use vstd::prelude::*;

use crate::presets::preset::Preset;
use crate::subdivision::seed::Seed;

verus! {

/// Collects the choices for a new planet; what is left unchosen takes its
/// default when the planet is built.
pub struct PlanetBuilder {
    preset: Option<Preset>,
    seed: Option<Seed>,
}

impl PlanetBuilder {
    pub closed spec fn spec_preset(&self) -> Option<Preset> {
        self.preset
    }

    pub closed spec fn spec_seed(&self) -> Option<Seed> {
        self.seed
    }

    /// Chooses the preset.
    pub fn with_preset(self, preset: Preset) -> (builder: PlanetBuilder)
        ensures
            builder.spec_preset() == Some(preset),
            builder.spec_seed() == self.spec_seed(),
    {
        let mut builder = self;
        builder.preset = Some(preset);
        builder
    }

    /// Chooses the seed.
    pub fn with_seed(self, seed: Seed) -> (builder: PlanetBuilder)
        ensures
            builder.spec_seed() == Some(seed),
            builder.spec_preset() == self.spec_preset(),
    {
        let mut builder = self;
        builder.seed = Some(seed);
        builder
    }

    /// The preset the planet is built with: the chosen one, else the default.
    pub fn chosen_preset(&self) -> (preset: Preset)
        ensures
            preset == (match self.spec_preset() {
                Some(p) => p,
                None => Preset::Earthy,
            }),
    {
        match self.preset {
            Some(preset) => preset,
            None => Preset::default(),
        }
    }

    /// The seed the planet is built with: the chosen one, else seed 0.
    pub fn chosen_seed(&self) -> (seed: Seed)
        ensures
            seed@ == (match self.spec_seed() {
                Some(s) => s@,
                None => 0u64,
            }),
    {
        match self.seed {
            Some(seed) => seed,
            None => Seed::default(),
        }
    }
}

impl Default for PlanetBuilder {
    /// A builder with nothing chosen.
    fn default() -> (builder: PlanetBuilder)
        ensures
            builder.spec_preset() is None,
            builder.spec_seed() is None,
    {
        PlanetBuilder { preset: None, seed: None }
    }
}

} // verus!
