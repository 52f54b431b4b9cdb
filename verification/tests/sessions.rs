use indexmap::IndexMap;
use fractal_music::discretization::{GridError, GridLayout};
use fractal_music::display::format_index_mapping;
use fractal_music::models::AttractorKind;
use fractal_music::music::MusicError;
use fractal_music::coordinates::CoordinateSystem;
use fractal_music::pipeline::{CoordinateSystemKind, PipelineError, axis_range_fields};
use fractal_music::text::split_trimmed;
use fractal_music::session::{
    SESSION_VERSION, SessionError, case_identifier, check_case_identifier, check_session_header,
    session_schema, table_mode_or_default,
};

#[test]
fn session_header_names_schema_and_version() {
    assert_eq!(session_schema(), "fractal_sequences.visual_session");
    assert_eq!(SESSION_VERSION, 1);
    assert_eq!(check_session_header(Some("fractal_sequences.visual_session"), Some(1)), Ok(()));
}

#[test]
fn session_header_checks_schema_before_version() {
    assert_eq!(check_session_header(None, Some(1)), Err(SessionError::WrongSchema));
    assert_eq!(check_session_header(Some("other"), Some(2)), Err(SessionError::WrongSchema));
    assert_eq!(
        check_session_header(Some("fractal_sequences.visual_session"), Some(2)),
        Err(SessionError::WrongVersion)
    );
    assert_eq!(
        check_session_header(Some("fractal_sequences.visual_session"), None),
        Err(SessionError::WrongVersion)
    );
    assert_eq!(SessionError::WrongSchema.message(), "El archivo no es una sesion de fractal_sequences");
    assert_eq!(SessionError::WrongVersion.message(), "Version de sesion no compatible");
    assert_eq!(SessionError::Incomplete.message(), "Sesion incompleta");
    assert_eq!(SessionError::RootNotObject.message(), "La raiz de la sesion debe ser un objeto JSON");
    assert_eq!(SessionError::InvalidConfig.message(), "Configuracion de sesion invalida");
    assert_eq!(SessionError::IncompleteConfig.message(), "Configuracion de sesion incompleta");
}

#[test]
fn saved_cases_need_an_identifier() {
    assert_eq!(check_case_identifier("case-001"), Ok(()));
    assert_eq!(check_case_identifier("  x "), Ok(()));
    assert_eq!(check_case_identifier(""), Err(SessionError::MissingCaseIdentifier));
    assert_eq!(check_case_identifier(" \t\n"), Err(SessionError::MissingCaseIdentifier));
    assert_eq!(check_case_identifier("\u{3000}"), Err(SessionError::MissingCaseIdentifier));
    assert_eq!(SessionError::MissingCaseIdentifier.message(), "Caso de sesion sin identificador");
}

#[test]
fn table_mode_defaults_to_everything() {
    assert_eq!(table_mode_or_default(None), "todo");
    assert_eq!(table_mode_or_default(Some("atractores")), "atractores");
}

#[test]
fn results_table_labels_attractor_kinds() {
    assert_eq!(AttractorKind::FixedPoint.table_label_str(), "fixedpoint");
    assert_eq!(AttractorKind::Cycle.table_label_str(), "cycle");
    assert_eq!(AttractorKind::Unknown.table_label_str(), "unknown");
    assert_eq!(AttractorKind::FixedPoint.name_str(), "fixed_point");
}

#[test]
fn cell_indices_are_shown_axis_by_axis() {
    assert_eq!(format_index_mapping(None), "-");
    assert_eq!(format_index_mapping(Some(&IndexMap::new())), "");
    assert_eq!(
        format_index_mapping(Some(&map(&[("r", 3), ("theta", 17)]))),
        "r=3, theta=17"
    );
}

#[test]
fn checked_cell_numbers_refuse_overflow() {
    let g = GridLayout::new(map(&[("r", 12), ("theta", 24)])).unwrap();
    assert_eq!(g.cell_id_checked(&vec![2, 5]), Some(53));
    assert_eq!(g.cell_id_checked(&vec![11, 23]), Some(287));
    assert_eq!(g.cell_id_checked(&vec![30, 0]), Some(720));
    let huge = GridLayout::new(map(&[("x", usize::MAX), ("y", 2)])).unwrap();
    assert_eq!(huge.cell_id_checked(&vec![0, 1]), None);
    let wide = GridLayout::new(map(&[("x", 2), ("y", usize::MAX / 2)])).unwrap();
    assert_eq!(wide.cell_id_checked(&vec![1, 0]), Some(usize::MAX / 2));
    assert_eq!(wide.cell_id_checked(&vec![3, 0]), None);
}

#[test]
fn errors_have_messages() {
    assert_eq!(GridError::NoAxes.message(), "grid requires at least one subdivision");
    assert_eq!(MusicError::UnknownScale(String::from("dorian")).message(), "Unknown scale: dorian");
    assert_eq!(
        MusicError::UnknownCriterion(String::from("noise")).message(),
        "Unknown music criterion: noise"
    );
    assert_eq!(MusicError::UnknownSegmentation(String::from("rings")).message(), "Unknown segmentation: rings");
    assert_eq!(MusicError::TooFewOctaves.message(), "octaves must be at least 1");
    assert_eq!(MusicError::RootFormat.message(), "root must use a note such as C4, D#3 or Bb2");
    assert_eq!(MusicError::RootNote.message(), "root note is not valid");
}

#[test]
fn case_identifiers_count_in_three_digits() {
    assert_eq!(case_identifier(0), "case-000");
    assert_eq!(case_identifier(1), "case-001");
    assert_eq!(case_identifier(42), "case-042");
    assert_eq!(case_identifier(123), "case-123");
    assert_eq!(case_identifier(1234), "case-1234");
}

#[test]
fn grids_on_a_system_axes_miss_none() {
    for system in [
        CoordinateSystemKind::RealLine,
        CoordinateSystemKind::ComplexCartesian,
        CoordinateSystemKind::ComplexPolar,
        CoordinateSystemKind::ProjectionX,
        CoordinateSystemKind::ProjectionY,
        CoordinateSystemKind::RadiusProjection,
        CoordinateSystemKind::AngleProjection,
    ] {
        let axes: IndexMap<String, usize> = system.axes().iter().map(|a| (a.to_string(), 4)).collect();
        let grid = GridLayout::new(axes).unwrap();
        assert!(grid.missing_axes(system.axes()).is_empty());
        assert_eq!(grid.missing_axes(&[]).len(), system.axes().len());
    }
}

#[test]
fn texts_split_at_separators_into_trimmed_pieces() {
    assert_eq!(split_trimmed("", ','), vec![String::new()]);
    assert_eq!(split_trimmed("a", ','), vec![String::from("a")]);
    assert_eq!(split_trimmed(" 0 , 2.5,12 ", ','), vec!["0", "2.5", "12"]);
    assert_eq!(split_trimmed("a,,b,", ','), vec!["a", "", "b", ""]);
}

#[test]
fn axis_ranges_have_three_fields() {
    assert_eq!(axis_range_fields("0, 6.283, 24").unwrap(), vec!["0", "6.283", "24"]);
    assert_eq!(axis_range_fields(" -2 ,2,8").unwrap(), vec!["-2", "2", "8"]);
    let refused = axis_range_fields("0,2").unwrap_err();
    assert_eq!(refused, PipelineError::RangeFormat(String::from("0,2")));
    assert_eq!(refused.message(), "Formato de rango invalido: 0,2");
    assert!(axis_range_fields("1,2,3,4").is_err());
    assert!(axis_range_fields("").is_err());
}

fn map(entries: &[(&str, usize)]) -> IndexMap<String, usize> {
    entries.iter().map(|(a, n)| (a.to_string(), *n)).collect()
}
