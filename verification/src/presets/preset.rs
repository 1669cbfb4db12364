use vstd::prelude::*;

verus! {

/// A named look for a planet.
#[derive(Debug, Clone, Copy, PartialEq, Eq, Structural, Hash)]
pub enum Preset {
    Earthy,
    Volcano,
    Rocky,
}

impl Default for Preset {
    fn default() -> (preset: Preset)
        ensures
            preset == Preset::Earthy,
    {
        Preset::Earthy
    }
}

impl Preset {
    /// Every preset, in the order a picker shows them.
    pub const ALL: [Preset; 3] = [Preset::Earthy, Preset::Volcano, Preset::Rocky];

    /// The preset's display name.
    pub fn name(&self) -> (name: &'static str)
        ensures
            name@ == (match self {
                Preset::Earthy => "Earthy"@,
                Preset::Volcano => "Volcano"@,
                Preset::Rocky => "Rocky"@,
            }),
    {
        match self {
            Preset::Earthy => "Earthy",
            Preset::Volcano => "Volcano",
            Preset::Rocky => "Rocky",
        }
    }

    /// One line on what the preset looks like.
    pub fn description(&self) -> (description: &'static str)
        ensures
            description@ == (match self {
                Preset::Earthy => "Oceans, grasslands, and snow-capped peaks."@,
                Preset::Volcano => "Charred basalt and glowing molten rock."@,
                Preset::Rocky => "Barren gray stone, no water or lava."@,
            }),
    {
        match self {
            Preset::Earthy => "Oceans, grasslands, and snow-capped peaks.",
            Preset::Volcano => "Charred basalt and glowing molten rock.",
            Preset::Rocky => "Barren gray stone, no water or lava.",
        }
    }
}

} // verus!
