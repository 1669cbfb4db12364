use planet_core::color::color_gradient::{check_stops, ColorGradientError};
use planet_core::mesh::{Mesh, MeshError, Triangle, Vertex};
use planet_core::planets::planet_builder::PlanetBuilder;
use planet_core::presets::preset::Preset;
use planet_core::processor::vertex_operator::VertexOperator;
use planet_core::subdivide::subdivide;
use planet_core::subdivision::seed::Seed;
use planet_core::subdivision::steps::Steps;
use planet_core::subdivision::subdivision_args::NoUpdate;
use planet_core::subdivision_args::SubdivisionArgs;
use planet_core::subdivision_mode::SubdivisionMode;

#[test]
fn preset_names_and_descriptions() {
    assert_eq!(Preset::Earthy.name(), "Earthy");
    assert_eq!(Preset::Volcano.name(), "Volcano");
    assert_eq!(Preset::Rocky.name(), "Rocky");
    assert_eq!(Preset::Earthy.description(), "Oceans, grasslands, and snow-capped peaks.");
    assert_eq!(Preset::Volcano.description(), "Charred basalt and glowing molten rock.");
    assert_eq!(Preset::Rocky.description(), "Barren gray stone, no water or lava.");
    assert_eq!(Preset::ALL, [Preset::Earthy, Preset::Volcano, Preset::Rocky]);
    assert_eq!(Preset::default(), Preset::Earthy);
}

#[test]
fn planet_builder_uses_defaults_for_what_is_unchosen() {
    let builder = PlanetBuilder::default();
    assert_eq!(builder.chosen_preset(), Preset::Earthy);
    assert_eq!(builder.chosen_seed().value(), 0);
    let builder = PlanetBuilder::default().with_seed(Seed::from(11)).with_preset(Preset::Rocky);
    assert_eq!(builder.chosen_preset(), Preset::Rocky);
    assert_eq!(builder.chosen_seed().value(), 11);
}

#[test]
fn check_stops_needs_two_ascending_stops() {
    assert_eq!(check_stops(0, &vec![]), Err(ColorGradientError::TooFewStops { count: 0 }));
    assert_eq!(check_stops(1, &vec![]), Err(ColorGradientError::TooFewStops { count: 1 }));
    assert_eq!(check_stops(2, &vec![true]), Ok(()));
    assert_eq!(check_stops(4, &vec![true, false, false]), Err(ColorGradientError::StopsNotStrictlyAscending { index: 2 }));
    assert_eq!(check_stops(3, &vec![false, true]), Err(ColorGradientError::StopsNotStrictlyAscending { index: 1 }));
}

type P = (f32, f32, f32);

#[derive(Default)]
struct VertexMidpoint;

impl VertexOperator for VertexMidpoint {
    type Point = Vertex<P>;

    fn split_point(&self, rng: &rand_pcg::Pcg32, a: &Vertex<P>, b: &Vertex<P>) -> (Vertex<P>, rand_pcg::Pcg32) {
        let (p, q) = (a.position, b.position);
        (Vertex { position: ((p.0 + q.0) / 2.0, (p.1 + q.1) / 2.0, (p.2 + q.2) / 2.0) }, rng.clone())
    }
}

#[test]
fn flat_mesh_validates_corners() {
    let vertices = vec![Vertex { position: (0.0, 0.0, 0.0) }, Vertex { position: (1.0, 0.0, 0.0) }];
    let result = Mesh::new(vertices.clone(), vec![Triangle::new(0, 1, 2)]);
    assert_eq!(result, Err(MeshError::VertexIndexOutOfBounds { index: 2, vertex_count: 2 }));
    let mesh = Mesh::new(vertices, vec![Triangle::new(0, 1, 1)]).unwrap();
    assert_eq!(mesh.triangles(), &[Triangle { a: 0, b: 1, c: 1 }]);
    assert_eq!(mesh.vertices().len(), 2);
}

#[test]
fn flat_mesh_subdivides_into_four_per_round() {
    let vertices = vec![
        Vertex { position: (0.0, 0.0, 0.0) },
        Vertex { position: (2.0, 0.0, 0.0) },
        Vertex { position: (0.0, 2.0, 0.0) },
    ];
    let mesh = Mesh::new(vertices, vec![Triangle::new(0, 1, 2)]).unwrap();
    let args: SubdivisionArgs<NoUpdate> = SubdivisionArgs::new(Some(Steps::new(1).unwrap()), Some(SubdivisionMode::UniformRedSplit), None);
    assert_eq!(args.mode(), SubdivisionMode::UniformRedSplit);
    assert_eq!(args.steps().value(), 1);
    let defaults: SubdivisionArgs<NoUpdate> = SubdivisionArgs::new(None, None, None);
    assert_eq!(defaults.steps().value(), 3);
    assert_eq!(defaults.mode(), SubdivisionMode::default());
    let next = subdivide::<P, VertexMidpoint, NoUpdate>(&mesh, args).unwrap();
    assert_eq!(
        next.triangles(),
        &[Triangle::new(0, 3, 5), Triangle::new(1, 4, 3), Triangle::new(2, 5, 4), Triangle::new(3, 4, 5)]
    );
    assert_eq!(next.vertices()[4].position, (1.0, 1.0, 0.0));
    assert_eq!(mesh.duplicate(), mesh);
    assert_eq!(mesh.clone(), mesh);
}
