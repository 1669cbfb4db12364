use planet_core::geometry::mesh::{Mesh, MeshError};
use planet_core::processor::vertex_operator::VertexOperator;
use planet_core::subdivision::edge::{EdgeCache, EdgeKey};
use planet_core::subdivision::seed::Seed;
use planet_core::subdivision::steps::{Steps, StepsError, MAX_SUBDIVISION_STEPS};
use planet_core::subdivision::strategies::radial_random_split::RadialRandomSplit;
use planet_core::subdivision::strategies::red_green_split::{red_green_pattern, EdgeSplitRule, RedGreenSplit};
use planet_core::subdivision::strategies::uniform_red_split::UniformRedSplit;
use planet_core::subdivision::subdivide::{face_triangle, max_new_vertices, max_round_triangles, split_round, subdivide};
use planet_core::subdivision::subdivision_args::{NoUpdate, SubdivisionArgs, UpdateCallback};
use planet_core::subdivision::subdivision_mode::SubdivisionMode;

use rand::{RngExt, SeedableRng};
use rand_pcg::Pcg32;
use std::cell::Cell;

type P = (f32, f32, f32);

/// Places split points at the exact midpoint and counts its calls.
#[derive(Default)]
struct Midpoint {
    calls: Cell<usize>,
}

impl VertexOperator for Midpoint {
    type Point = P;

    fn split_point(&self, rng: &Pcg32, a: &P, b: &P) -> (P, Pcg32) {
        self.calls.set(self.calls.get() + 1);
        (((a.0 + b.0) / 2.0, (a.1 + b.1) / 2.0, (a.2 + b.2) / 2.0), rng.clone())
    }
}

impl EdgeSplitRule for Midpoint {
    fn splits_edge(&self, a: &P, b: &P) -> bool {
        let d = (b.0 - a.0, b.1 - a.1, b.2 - a.2);
        (d.0 * d.0 + d.1 * d.1 + d.2 * d.2).sqrt() >= 1.5
    }
}

fn triangle_mesh() -> Mesh<P> {
    Mesh::new(
        vec![(0.0, 0.0, 0.0), (2.0, 0.0, 0.0), (0.0, 2.0, 0.0)],
        vec![(0, 1, 2)],
    )
    .unwrap()
}

fn triangles_of(mesh: &Mesh<P>) -> Vec<(usize, usize, usize)> {
    (0..mesh.faces().len()).map(|f| face_triangle(mesh, f)).collect()
}

fn icosahedron() -> Mesh<P> {
    let t = (1.0 + 5.0f32.sqrt()) / 2.0;
    Mesh::icosahedron([
        (-1.0, t, 0.0),
        (1.0, t, 0.0),
        (-1.0, -t, 0.0),
        (1.0, -t, 0.0),
        (0.0, -1.0, t),
        (0.0, 1.0, t),
        (0.0, -1.0, -t),
        (0.0, 1.0, -t),
        (t, 0.0, -1.0),
        (t, 0.0, 1.0),
        (-t, 0.0, -1.0),
        (-t, 0.0, 1.0),
    ])
    .unwrap()
}

#[test]
fn max_new_vertices_is_3_per_triangle() {
    assert_eq!(max_new_vertices(5), 15);
}

#[test]
fn max_round_triangles_is_4_per_triangle() {
    assert_eq!(max_round_triangles(5), 20);
}

#[test]
fn split_round_splits_one_triangle_into_four() {
    let mesh = triangle_mesh();
    let mut strategy: UniformRedSplit<Midpoint> = UniformRedSplit::new(Seed::from(3));
    let next = split_round(&mesh, &mut strategy).unwrap();
    assert_eq!(next.vertices().len(), 6);
    assert_eq!(
        triangles_of(&next),
        vec![(0, 3, 5), (1, 4, 3), (2, 5, 4), (3, 4, 5)]
    );
    let positions: Vec<P> = next.vertices().iter().map(|v| v.position).collect();
    assert_eq!(positions[3], (1.0, 0.0, 0.0));
    assert_eq!(positions[4], (1.0, 1.0, 0.0));
    assert_eq!(positions[5], (0.0, 1.0, 0.0));
}

#[test]
fn split_round_shares_the_split_vertex_of_a_common_edge() {
    let mesh = Mesh::new(
        vec![(0.0, 0.0, 0.0), (2.0, 0.0, 0.0), (0.0, 2.0, 0.0), (2.0, 2.0, 0.0)],
        vec![(0, 1, 2), (2, 1, 3)],
    )
    .unwrap();
    let mut strategy: UniformRedSplit<Midpoint> = UniformRedSplit::new(Seed::default());
    let next = split_round(&mesh, &mut strategy).unwrap();
    // Five distinct edges, so five new vertices, not six.
    assert_eq!(next.vertices().len(), 9);
    let tris = triangles_of(&next);
    assert_eq!(tris.len(), 8);
    // Edge 1-2 is split at vertex 5 for both triangles.
    assert_eq!(tris[0..4], [(0, 4, 6), (1, 5, 4), (2, 6, 5), (4, 5, 6)]);
    assert_eq!(tris[4..8], [(2, 5, 8), (1, 7, 5), (3, 8, 7), (5, 7, 8)]);
}

#[test]
fn split_round_keeps_the_old_positions() {
    let mesh = icosahedron();
    let mut strategy: UniformRedSplit<Midpoint> = UniformRedSplit::new(Seed::default());
    let next = split_round(&mesh, &mut strategy).unwrap();
    for (old, new) in mesh.vertices().iter().zip(next.vertices()) {
        assert_eq!(old.position, new.position);
    }
    assert_eq!(next.vertices().len(), 42);
    assert_eq!(next.faces().len(), 80);
    assert_eq!(next.edges().len(), 240);
}

struct Recorder {
    seen: std::rc::Rc<std::cell::RefCell<Vec<(usize, usize)>>>,
}

impl UpdateCallback<P> for Recorder {
    fn update(self, mesh: &Mesh<P>, step: usize) -> Self {
        self.seen.borrow_mut().push((step, mesh.faces().len()));
        self
    }
}

#[test]
fn subdivide_runs_the_requested_rounds() {
    let mesh = icosahedron();
    let args: SubdivisionArgs<NoUpdate> = SubdivisionArgs::new(Some(Steps::new(2).unwrap()), None, Some(Seed::from(9)), None);
    let next = subdivide::<Midpoint, NoUpdate>(&mesh, args).unwrap();
    assert_eq!(next.faces().len(), 20 * 16);
    assert_eq!(next.vertices().len(), 162);
}

#[test]
fn subdivide_with_zero_steps_returns_the_same_mesh() {
    let mesh = triangle_mesh();
    let args: SubdivisionArgs<NoUpdate> = SubdivisionArgs::new(Some(Steps::new(0).unwrap()), None, None, None);
    let next = subdivide::<Midpoint, NoUpdate>(&mesh, args).unwrap();
    assert_eq!(next, mesh);
}

#[test]
fn subdivide_shows_each_round_to_the_callback() {
    let mesh = triangle_mesh();
    let seen = std::rc::Rc::new(std::cell::RefCell::new(Vec::new()));
    let recorder = Recorder { seen: seen.clone() };
    let args = SubdivisionArgs::new(Some(Steps::new(3).unwrap()), Some(SubdivisionMode::UniformRedSplit), None, Some(recorder));
    let next = subdivide::<Midpoint, Recorder>(&mesh, args).unwrap();
    assert_eq!(next.faces().len(), 64);
    assert_eq!(*seen.borrow(), vec![(1, 4), (2, 16), (3, 64)]);
}

#[test]
fn steps_are_refused_above_the_maximum() {
    assert_eq!(Steps::new(MAX_SUBDIVISION_STEPS).unwrap().value(), 8);
    assert_eq!(
        Steps::new(9),
        Err(StepsError::ExceedsMaximum { steps: 9, max: 8 })
    );
    assert_eq!(Steps::default().value(), 3);
}

#[test]
fn seed_holds_its_number() {
    assert_eq!(Seed::from(42).value(), 42);
    assert_eq!(Seed::default().value(), 0);
}

#[test]
fn subdivision_args_fill_in_defaults() {
    let args: SubdivisionArgs<NoUpdate> = SubdivisionArgs::new(None, None, None, None);
    assert_eq!(args.steps().value(), 3);
    assert_eq!(args.mode(), SubdivisionMode::UniformRedSplit);
    assert_eq!(args.seed().value(), 0);
    let args: SubdivisionArgs<NoUpdate> = SubdivisionArgs::new(Some(Steps::new(5).unwrap()), None, Some(Seed::from(7)), None);
    assert_eq!(args.steps().value(), 5);
    assert_eq!(args.seed().value(), 7);
}

#[test]
fn edge_key_puts_the_lower_end_first() {
    let key = EdgeKey::new(7, 3);
    assert_eq!((key.low, key.high), (3, 7));
    assert_eq!(EdgeKey::new(3, 7), key);
}

#[test]
fn edge_cache_splits_an_edge_once_whichever_way_it_is_walked() {
    let mut cache = EdgeCache::new();
    let mut vertices: Vec<P> = vec![(0.0, 0.0, 0.0), (4.0, 0.0, 0.0)];
    let op = Midpoint::default();
    let mut rng = Pcg32::seed_from_u64(1);
    let first = cache.get_or_insert_with(0, 1, &mut vertices, &op, &mut rng);
    let again = cache.get_or_insert_with(1, 0, &mut vertices, &op, &mut rng);
    assert_eq!(first, 2);
    assert_eq!(again, 2);
    assert_eq!(op.calls.get(), 1);
    assert_eq!(vertices, vec![(0.0, 0.0, 0.0), (4.0, 0.0, 0.0), (2.0, 0.0, 0.0)]);
}

#[test]
fn radial_random_split_has_the_red_split_shape() {
    let mut cache = EdgeCache::new();
    let mut vertices: Vec<P> = vec![(0.0, 0.0, 0.0), (2.0, 0.0, 0.0), (0.0, 2.0, 0.0)];
    let mut strategy = RadialRandomSplit::new(Seed::from(5), Midpoint::default());
    let children = strategy.split_triangle(&mut vertices, &mut cache, (0, 1, 2));
    assert_eq!(children, vec![(0, 3, 5), (1, 4, 3), (2, 5, 4), (3, 4, 5)]);
    assert_eq!(vertices.len(), 6);
}

#[test]
fn red_green_pattern_covers_every_case() {
    let t = (0, 1, 2);
    assert_eq!(red_green_pattern(t, None, None, None), vec![t]);
    assert_eq!(red_green_pattern(t, Some(3), None, None), vec![(0, 3, 2), (3, 1, 2)]);
    assert_eq!(red_green_pattern(t, None, Some(4), None), vec![(1, 4, 0), (4, 2, 0)]);
    assert_eq!(red_green_pattern(t, None, None, Some(5)), vec![(2, 5, 1), (5, 0, 1)]);
    assert_eq!(red_green_pattern(t, Some(3), Some(4), None), vec![(3, 1, 4), (3, 4, 2), (3, 2, 0)]);
    assert_eq!(red_green_pattern(t, None, Some(4), Some(5)), vec![(4, 2, 5), (4, 5, 0), (4, 0, 1)]);
    assert_eq!(red_green_pattern(t, Some(3), None, Some(5)), vec![(3, 1, 2), (3, 2, 5), (3, 5, 0)]);
    assert_eq!(
        red_green_pattern(t, Some(3), Some(4), Some(5)),
        vec![(0, 3, 5), (1, 4, 3), (2, 5, 4), (3, 4, 5)]
    );
}

#[test]
fn red_green_split_leaves_short_edges_whole() {
    // Edges 0-1 and 0-2 have length 2, edge 1-2 has length 2.83; only
    // edges of length at least 1.5 are split, so all three are.
    let mut cache = EdgeCache::new();
    let mut vertices: Vec<P> = vec![(0.0, 0.0, 0.0), (2.0, 0.0, 0.0), (0.0, 2.0, 0.0)];
    let mut strategy = RedGreenSplit::new(Seed::from(5), Midpoint::default());
    let children = strategy.split_triangle(&mut vertices, &mut cache, (0, 1, 2));
    assert_eq!(children.len(), 4);
    // A short triangle is kept whole.
    let mut vertices: Vec<P> = vec![(0.0, 0.0, 0.0), (1.0, 0.0, 0.0), (0.0, 1.0, 0.0)];
    let mut cache = EdgeCache::new();
    let children = strategy.split_triangle(&mut vertices, &mut cache, (0, 1, 2));
    assert_eq!(children, vec![(0, 1, 2)]);
    assert_eq!(vertices.len(), 3);
    // Only the long edge 1-2 of this one is split.
    let mut vertices: Vec<P> = vec![(0.0, 0.0, 0.0), (1.2, 0.0, 0.0), (0.0, 1.2, 0.0)];
    let mut cache = EdgeCache::new();
    let children = strategy.split_triangle(&mut vertices, &mut cache, (0, 1, 2));
    assert_eq!(children, vec![(1, 3, 0), (3, 2, 0)]);
    assert_eq!(strategy.maybe_split(0, 1, &mut vertices, &mut cache), None);
    assert_eq!(strategy.maybe_split(2, 1, &mut vertices, &mut cache), Some(3));
}

#[test]
fn mesh_error_for_subdivision_types_is_comparable() {
    let err = Mesh::<P>::new(vec![], vec![(0, 0, 0)]).unwrap_err();
    assert_eq!(err, MeshError::VertexIndexOutOfBounds { index: 0, vertex_count: 0 });
}

/// Places split points at a random fraction along the edge.
#[derive(Default)]
struct Drawn;

impl VertexOperator for Drawn {
    type Point = P;

    fn split_point(&self, rng: &Pcg32, a: &P, b: &P) -> (P, Pcg32) {
        let mut rng = rng.clone();
        let t: f32 = rng.random_range(0.25..=0.75);
        ((a.0 + (b.0 - a.0) * t, a.1 + (b.1 - a.1) * t, a.2 + (b.2 - a.2) * t), rng)
    }
}

fn drawn_positions(seed: u64) -> Vec<P> {
    let mesh = icosahedron();
    let args: SubdivisionArgs<NoUpdate> = SubdivisionArgs::new(Some(Steps::new(2).unwrap()), None, Some(Seed::from(seed)), None);
    let next = subdivide::<Drawn, NoUpdate>(&mesh, args).unwrap();
    next.vertices().iter().map(|v| v.position).collect()
}

#[test]
fn the_same_seed_places_the_same_split_points() {
    assert_eq!(drawn_positions(7), drawn_positions(7));
    assert_ne!(drawn_positions(7), drawn_positions(8));
    // The seeded generator is rand_pcg's Pcg32 seeded with the seed.
    let mut cache = EdgeCache::new();
    let mut vertices: Vec<P> = vec![(0.0, 0.0, 0.0), (4.0, 0.0, 0.0), (0.0, 4.0, 0.0)];
    let mut strategy: UniformRedSplit<Drawn> = UniformRedSplit::new(Seed::from(7));
    strategy.split_triangle(&mut vertices, &mut cache, (0, 1, 2));
    let rng = Pcg32::seed_from_u64(7);
    let (expected, _) = Drawn.split_point(&rng, &(0.0, 0.0, 0.0), &(4.0, 0.0, 0.0));
    assert_eq!(vertices[3], expected);
}

#[test]
fn split_if_splits_only_when_told_to() {
    let mut cache = EdgeCache::new();
    let mut vertices: Vec<P> = vec![(0.0, 0.0, 0.0), (2.0, 0.0, 0.0)];
    let mut strategy = RedGreenSplit::new(Seed::from(2), Midpoint::default());
    assert_eq!(strategy.split_if(false, 0, 1, &mut vertices, &mut cache), None);
    assert_eq!(vertices.len(), 2);
    assert_eq!(strategy.split_if(true, 0, 1, &mut vertices, &mut cache), Some(2));
    assert_eq!(vertices[2], (1.0, 0.0, 0.0));
    assert_eq!(strategy.split_if(true, 1, 0, &mut vertices, &mut cache), Some(2));
    assert_eq!(vertices.len(), 3);
}

#[test]
fn edge_cache_files_the_operators_point_and_leaves_the_generator_on_a_hit() {
    let mut cache = EdgeCache::new();
    let mut vertices: Vec<P> = vec![(0.0, 0.0, 0.0), (4.0, 0.0, 0.0)];
    let start = Pcg32::seed_from_u64(3);
    let mut rng = start.clone();
    let index = cache.get_or_insert_with(0, 1, &mut vertices, &Drawn, &mut rng);
    let (expected, after) = Drawn.split_point(&start, &(0.0, 0.0, 0.0), &(4.0, 0.0, 0.0));
    assert_eq!(index, 2);
    assert_eq!(vertices[2], expected);
    assert_eq!(rng, after);
    assert_ne!(rng, start);
    let again = cache.get_or_insert_with(1, 0, &mut vertices, &Drawn, &mut rng);
    assert_eq!(again, 2);
    assert_eq!(rng, after);
    assert_eq!(vertices.len(), 3);
}

#[test]
fn red_green_split_follows_the_rule_for_each_edge() {
    // With legs 1.2 long, only the edge 1-2 (length 1.70) reaches the
    // rule's minimum of 1.5.
    let mut cache = EdgeCache::new();
    let mut vertices: Vec<P> = vec![(0.0, 0.0, 0.0), (1.2, 0.0, 0.0), (0.0, 1.2, 0.0)];
    let op = Midpoint::default();
    assert!(!op.splits_edge(&vertices[0], &vertices[1]));
    assert!(op.splits_edge(&vertices[1], &vertices[2]));
    let mut strategy = RedGreenSplit::new(Seed::from(4), Midpoint::default());
    assert_eq!(strategy.maybe_split(0, 1, &mut vertices, &mut cache), None);
    assert_eq!(vertices.len(), 3);
    assert_eq!(strategy.maybe_split(1, 2, &mut vertices, &mut cache), Some(3));
    assert_eq!(vertices[3], (0.6, 0.6, 0.0));
}
