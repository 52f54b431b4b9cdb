use indexmap::IndexMap;
use fractal_music::coordinates::{
    AngleProjectionCoordinates, ComplexCartesianCoordinates, ComplexPolarCoordinates,
    CoordinateSystem, ProjectionXCoordinates, ProjectionYCoordinates, RadiusProjectionCoordinates,
    RealLineCoordinates,
};
use fractal_music::discretization::{GridError, GridLayout, missing_axes_text};
use fractal_music::display::{Language, localized, thin_points};
use fractal_music::pipeline::{
    CoordinateSystemKind, PipelineError, RecurrenceKind, build_coordinate_system, check_ranges,
    default_attractor_window, recurrence_kind,
};

fn grid(axes: &[(&str, usize)]) -> Result<GridLayout, GridError> {
    let map: IndexMap<String, usize> = axes.iter().map(|(a, s)| (a.to_string(), *s)).collect();
    GridLayout::new(map)
}

#[test]
fn grids_need_distinct_axes_with_cells() {
    assert_eq!(grid(&[]).unwrap_err(), GridError::NoAxes);
    // A map holds an axis once: a repeated axis keeps its place and its last count.
    let repeated = grid(&[("x", 2), ("y", 5), ("x", 3)]).unwrap();
    assert_eq!(repeated.axes(), vec![String::from("x"), String::from("y")]);
    assert_eq!(repeated.steps(), vec![3, 5]);
    let g = grid(&[("r", 12), ("theta", 24)]).unwrap();
    assert_eq!(g.axes(), vec![String::from("r"), String::from("theta")]);
    assert_eq!(g.steps(), vec![12, 24]);
    assert_eq!(g.total_cells(), 288);
}

#[test]
fn cells_are_numbered_with_the_last_axis_fastest() {
    let g = grid(&[("r", 12), ("theta", 24)]).unwrap();
    assert_eq!(g.cell_id(&vec![0, 0]), 0);
    assert_eq!(g.cell_id(&vec![0, 23]), 23);
    assert_eq!(g.cell_id(&vec![1, 0]), 24);
    assert_eq!(g.cell_id(&vec![11, 23]), 287);
    let cube = grid(&[("a", 2), ("b", 3), ("c", 4)]).unwrap();
    let mut seen = Vec::new();
    for a in 0..2 {
        for b in 0..3 {
            for c in 0..4 {
                seen.push(cube.cell_id(&vec![a, b, c]));
            }
        }
    }
    assert_eq!(seen, (0..24).collect::<Vec<usize>>());
}

#[test]
fn missing_axes_are_listed() {
    let g = grid(&[("x", 4), ("y", 4), ("z", 2)]).unwrap();
    assert_eq!(g.missing_axes(&["x"]), vec![String::from("y"), String::from("z")]);
    assert!(g.missing_axes(&["z", "y", "x"]).is_empty());
    assert_eq!(
        missing_axes_text(&g.missing_axes(&["x"])),
        "coordinate system does not provide axes: y, z"
    );
}

#[test]
fn coordinate_systems_have_names_and_axes() {
    assert_eq!((RealLineCoordinates.name(), RealLineCoordinates.axes()), ("real_line", &["x"][..]));
    assert_eq!(ComplexCartesianCoordinates.axes(), &["x", "y"][..]);
    assert_eq!(ComplexPolarCoordinates.name(), "complex_polar");
    assert_eq!(ComplexPolarCoordinates.axes(), &["r", "theta"][..]);
    assert_eq!(ProjectionXCoordinates.axes(), &["x"][..]);
    assert_eq!(ProjectionYCoordinates.axes(), &["y"][..]);
    assert_eq!(RadiusProjectionCoordinates.name(), "radius_projection");
    assert_eq!(AngleProjectionCoordinates.axes(), &["theta"][..]);
}

#[test]
fn configuration_names_choose_the_parts() {
    assert_eq!(build_coordinate_system("polar"), Ok(CoordinateSystemKind::ComplexPolar));
    assert_eq!(build_coordinate_system("x"), Ok(CoordinateSystemKind::ProjectionX));
    assert_eq!(build_coordinate_system("cartesian").unwrap().axes(), &["x", "y"][..]);
    assert_eq!(build_coordinate_system("angle").unwrap().name(), "angle_projection");
    assert_eq!(
        build_coordinate_system("real_line"),
        Err(PipelineError::UnknownCoordinateSystem(String::from("real_line")))
    );
    assert_eq!(recurrence_kind("logistic"), Ok(RecurrenceKind::Logistic));
    assert_eq!(recurrence_kind("quadratic_complex"), Ok(RecurrenceKind::QuadraticComplex));
    assert_eq!(recurrence_kind("cosine"), Ok(RecurrenceKind::Cosine));
    let unknown = recurrence_kind("henon").unwrap_err();
    assert_eq!(unknown.message(), "unknown recurrence config: henon");
    let ranges = vec![String::from("r")];
    let missing = check_ranges(&CoordinateSystemKind::ComplexPolar, &ranges).unwrap_err();
    assert_eq!(missing, PipelineError::MissingRange(String::from("theta")));
    assert_eq!(missing.message(), "missing discretization ranges for axes: theta");
    assert_eq!(check_ranges(&CoordinateSystemKind::RadiusProjection, &ranges), Ok(()));
}

#[test]
fn attractor_window_defaults_to_a_third_of_the_terms() {
    assert_eq!(default_attractor_window(Some(7), 1000), 7);
    assert_eq!(default_attractor_window(None, 1000), 333);
    assert_eq!(default_attractor_window(None, 90), 50);
}

#[test]
fn long_trajectories_are_thinned_evenly() {
    let points: Vec<usize> = (0..10).collect();
    assert_eq!(thin_points(&points, 4), vec![0, 3, 6, 9]);
    assert_eq!(thin_points(&points, 10), points);
    assert_eq!(thin_points(&points, 1), points);
    assert_eq!(thin_points(&points, 2), vec![0, 9]);
    assert_eq!(localized(Language::Spanish, "hola", "hello"), "hola");
    assert_eq!(localized(Language::English, "hola", "hello"), "hello");
}

#[test]
fn grids_accept_axes_without_cells() {
    let flat = grid(&[("x", 2), ("y", 0)]).unwrap();
    assert_eq!(flat.steps(), vec![2, 0]);
    assert_eq!(flat.total_cells(), 0);
    assert_eq!(flat.cell_id(&vec![1, 0]), 0);
    assert_eq!(flat.cell_id_checked(&vec![1, 0]), Some(0));
    let empty = grid(&[("a", 0), ("b", 0)]).unwrap();
    assert_eq!(empty.total_cells(), 0);
    // Multiplied from the first axis on, the cells of the grid are counted
    // without overflow; multiplied from the last axis back, as cell numbers
    // are, the running multiplier overflows.
    let mixed = grid(&[("x", 0), ("y", usize::MAX), ("z", 2)]).unwrap();
    assert_eq!(mixed.total_cells(), 0);
    assert_eq!(mixed.cell_id_checked(&vec![0, 0, 1]), None);
    assert_eq!(GridError::MissingIndex(String::from("theta")).message(), "missing index for axis: theta");
}

#[test]
fn point_indices_are_aligned_with_the_grid_axes() {
    let g = grid(&[("r", 12), ("theta", 24)]).unwrap();
    let mut indices: IndexMap<String, usize> = IndexMap::new();
    indices.insert(String::from("theta"), 5);
    indices.insert(String::from("r"), 2);
    assert_eq!(g.aligned_indices(&indices), Ok(vec![2, 5]));
    assert_eq!(g.cell_id(&g.aligned_indices(&indices).unwrap()), 53);
    let mut partial: IndexMap<String, usize> = IndexMap::new();
    partial.insert(String::from("x"), 1);
    assert_eq!(g.aligned_indices(&partial), Err(GridError::MissingIndex(String::from("theta"))));
    partial.insert(String::from("theta"), 1);
    assert_eq!(g.aligned_indices(&partial), Err(GridError::MissingIndex(String::from("r"))));
}
