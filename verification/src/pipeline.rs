//! Choosing the parts of an exploration from its configuration: the
//! recurrence, the coordinate system, the axes that need ranges and the
//! attractor window.
use vstd::prelude::*;

use crate::coordinates::{
    AngleProjectionCoordinates, ComplexCartesianCoordinates, ComplexPolarCoordinates,
    CoordinateSystem, ProjectionXCoordinates, ProjectionYCoordinates, RadiusProjectionCoordinates,
    RealLineCoordinates, axis_views,
};
use crate::text::{same_text, split_on, split_trimmed, texts, trimmed};

verus! {

/// Why a configuration could not be turned into an exploration.
#[derive(Debug, Clone, PartialEq, Eq)]
pub enum PipelineError {
    UnknownRecurrence(String),
    UnknownCoordinateSystem(String),
    MissingRange(String),
    /// An axis range is not written as `minimum,maximum,steps`.
    RangeFormat(String),
}

impl PipelineError {
    /// The message reported for this error.
    pub fn message(&self) -> (r: String)
        ensures
            r@ == match self {
                PipelineError::UnknownRecurrence(n) => "unknown recurrence config: "@ + n@,
                PipelineError::UnknownCoordinateSystem(n) => "unknown coordinate system config: "@
                    + n@,
                PipelineError::MissingRange(a) => "missing discretization ranges for axes: "@ + a@,
                PipelineError::RangeFormat(t) => "Formato de rango invalido: "@ + t@,
            },
    {
        match self {
            PipelineError::UnknownRecurrence(n) => {
                let mut r = String::from_str("unknown recurrence config: ");
                r.append(n.as_str());
                r
            },
            PipelineError::UnknownCoordinateSystem(n) => {
                let mut r = String::from_str("unknown coordinate system config: ");
                r.append(n.as_str());
                r
            },
            PipelineError::MissingRange(a) => {
                let mut r = String::from_str("missing discretization ranges for axes: ");
                r.append(a.as_str());
                r
            },
            PipelineError::RangeFormat(t) => {
                let mut r = String::from_str("Formato de rango invalido: ");
                r.append(t.as_str());
                r
            },
        }
    }
}

/// The recurrences an exploration can run.
#[derive(Debug, Clone, Copy, PartialEq, Eq, Structural)]
pub enum RecurrenceKind {
    /// `x -> cos(x)`, configured as `cosine`.
    Cosine,
    /// `x -> r x (1 - x)`, configured as `logistic`.
    Logistic,
    /// `z -> z^2 + c`, configured as `quadratic_complex`.
    QuadraticComplex,
}

/// The recurrence configured under `name`.
pub open spec fn recurrence_named(name: Seq<char>) -> Option<RecurrenceKind> {
    if name == "cosine"@ {
        Some(RecurrenceKind::Cosine)
    } else if name == "logistic"@ {
        Some(RecurrenceKind::Logistic)
    } else if name == "quadratic_complex"@ {
        Some(RecurrenceKind::QuadraticComplex)
    } else {
        None
    }
}

/// The recurrence configured under `name`, or an error for an unknown name.
pub fn recurrence_kind(name: &str) -> (r: Result<RecurrenceKind, PipelineError>)
    ensures
        r matches Ok(k) ==> recurrence_named(name@) == Some(k),
        r matches Err(e) ==> recurrence_named(name@) is None && (e matches PipelineError::UnknownRecurrence(
            n
        ) && n@ == name@),
{
    if same_text(name, "cosine") {
        Ok(RecurrenceKind::Cosine)
    } else if same_text(name, "logistic") {
        Ok(RecurrenceKind::Logistic)
    } else if same_text(name, "quadratic_complex") {
        Ok(RecurrenceKind::QuadraticComplex)
    } else {
        Err(PipelineError::UnknownRecurrence(String::from_str(name)))
    }
}

/// One of the coordinate systems.
#[derive(Debug, Clone, Copy, PartialEq, Eq, Structural)]
pub enum CoordinateSystemKind {
    RealLine,
    ComplexCartesian,
    ComplexPolar,
    ProjectionX,
    ProjectionY,
    RadiusProjection,
    AngleProjection,
}

impl CoordinateSystem for CoordinateSystemKind {
    open spec fn system_name(&self) -> Seq<char> {
        match self {
            CoordinateSystemKind::RealLine => RealLineCoordinates.system_name(),
            CoordinateSystemKind::ComplexCartesian => ComplexCartesianCoordinates.system_name(),
            CoordinateSystemKind::ComplexPolar => ComplexPolarCoordinates.system_name(),
            CoordinateSystemKind::ProjectionX => ProjectionXCoordinates.system_name(),
            CoordinateSystemKind::ProjectionY => ProjectionYCoordinates.system_name(),
            CoordinateSystemKind::RadiusProjection => RadiusProjectionCoordinates.system_name(),
            CoordinateSystemKind::AngleProjection => AngleProjectionCoordinates.system_name(),
        }
    }

    open spec fn axis_names(&self) -> Seq<Seq<char>> {
        match self {
            CoordinateSystemKind::RealLine => RealLineCoordinates.axis_names(),
            CoordinateSystemKind::ComplexCartesian => ComplexCartesianCoordinates.axis_names(),
            CoordinateSystemKind::ComplexPolar => ComplexPolarCoordinates.axis_names(),
            CoordinateSystemKind::ProjectionX => ProjectionXCoordinates.axis_names(),
            CoordinateSystemKind::ProjectionY => ProjectionYCoordinates.axis_names(),
            CoordinateSystemKind::RadiusProjection => RadiusProjectionCoordinates.axis_names(),
            CoordinateSystemKind::AngleProjection => AngleProjectionCoordinates.axis_names(),
        }
    }

    fn name(&self) -> (r: &'static str) {
        match self {
            CoordinateSystemKind::RealLine => RealLineCoordinates.name(),
            CoordinateSystemKind::ComplexCartesian => ComplexCartesianCoordinates.name(),
            CoordinateSystemKind::ComplexPolar => ComplexPolarCoordinates.name(),
            CoordinateSystemKind::ProjectionX => ProjectionXCoordinates.name(),
            CoordinateSystemKind::ProjectionY => ProjectionYCoordinates.name(),
            CoordinateSystemKind::RadiusProjection => RadiusProjectionCoordinates.name(),
            CoordinateSystemKind::AngleProjection => AngleProjectionCoordinates.name(),
        }
    }

    fn axes(&self) -> (r: &'static [&'static str]) {
        match self {
            CoordinateSystemKind::RealLine => RealLineCoordinates.axes(),
            CoordinateSystemKind::ComplexCartesian => ComplexCartesianCoordinates.axes(),
            CoordinateSystemKind::ComplexPolar => ComplexPolarCoordinates.axes(),
            CoordinateSystemKind::ProjectionX => ProjectionXCoordinates.axes(),
            CoordinateSystemKind::ProjectionY => ProjectionYCoordinates.axes(),
            CoordinateSystemKind::RadiusProjection => RadiusProjectionCoordinates.axes(),
            CoordinateSystemKind::AngleProjection => AngleProjectionCoordinates.axes(),
        }
    }
}

/// The coordinate system configured under `name`: `x`, `cartesian`, `polar`,
/// `y`, `radius` or `angle`.
pub open spec fn coordinate_system_named(name: Seq<char>) -> Option<CoordinateSystemKind> {
    if name == "cartesian"@ {
        Some(CoordinateSystemKind::ComplexCartesian)
    }     else if name == "polar"@ {
        Some(CoordinateSystemKind::ComplexPolar)
    }     else if name == "x"@ {
        Some(CoordinateSystemKind::ProjectionX)
    }     else if name == "y"@ {
        Some(CoordinateSystemKind::ProjectionY)
    }     else if name == "radius"@ {
        Some(CoordinateSystemKind::RadiusProjection)
    }     else if name == "angle"@ {
        Some(CoordinateSystemKind::AngleProjection)
    } else {
        None
    }
}

/// The coordinate system built for a name is the one of that name: `x` and
/// `y` project on the real and imaginary parts, `radius` and `angle` on the
/// modulus and the argument, `cartesian` and `polar` keep the complex plane;
/// no other name gives a system.
pub proof fn law_systems_are_the_ones_named(name: Seq<char>)
    ensures
        name == "x"@ ==> coordinate_system_named(name) is Some && coordinate_system_named(
            name,
        )->0.system_name() == "projection_x"@ && coordinate_system_named(name)->0.axis_names()
            == seq!["x"@],
        name == "y"@ ==> coordinate_system_named(name) is Some && coordinate_system_named(
            name,
        )->0.system_name() == "projection_y"@ && coordinate_system_named(name)->0.axis_names()
            == seq!["y"@],
        name == "radius"@ ==> coordinate_system_named(name) is Some && coordinate_system_named(
            name,
        )->0.system_name() == "radius_projection"@ && coordinate_system_named(
            name,
        )->0.axis_names() == seq!["r"@],
        name == "angle"@ ==> coordinate_system_named(name) is Some && coordinate_system_named(
            name,
        )->0.system_name() == "angle_projection"@ && coordinate_system_named(
            name,
        )->0.axis_names() == seq!["theta"@],
        name == "cartesian"@ ==> coordinate_system_named(name) is Some && coordinate_system_named(
            name,
        )->0.system_name() == "complex_cartesian"@ && coordinate_system_named(
            name,
        )->0.axis_names() == seq!["x"@, "y"@],
        name == "polar"@ ==> coordinate_system_named(name) is Some && coordinate_system_named(
            name,
        )->0.system_name() == "complex_polar"@ && coordinate_system_named(
            name,
        )->0.axis_names() == seq!["r"@, "theta"@],
        name != "x"@ && name != "y"@ && name != "radius"@ && name != "angle"@ && name
            != "cartesian"@ && name != "polar"@ ==> coordinate_system_named(name) is None,
{
    reveal_strlit("x");
    reveal_strlit("y");
    reveal_strlit("radius");
    reveal_strlit("angle");
    reveal_strlit("cartesian");
    reveal_strlit("polar");
    assert("x"@ != "y"@ && "x"@ != "radius"@ && "x"@ != "angle"@ && "x"@ != "cartesian"@ && "x"@
        != "polar"@) by {
        assert("x"@[0] != "y"@[0]);
    }
    assert("y"@ != "radius"@ && "y"@ != "angle"@ && "y"@ != "cartesian"@ && "y"@ != "polar"@) by {
        assert("y"@.len() != "radius"@.len());
        assert("y"@.len() != "angle"@.len());
        assert("y"@.len() != "cartesian"@.len());
        assert("y"@.len() != "polar"@.len());
    }
    assert("radius"@ != "angle"@ && "radius"@ != "cartesian"@ && "radius"@ != "polar"@) by {
        assert("radius"@[0] != "angle"@[0]);
        assert("radius"@[0] != "cartesian"@[0]);
        assert("radius"@[0] != "polar"@[0]);
    }
    assert("angle"@ != "cartesian"@ && "angle"@ != "polar"@) by {
        assert("angle"@[0] != "cartesian"@[0]);
    }
    assert("cartesian"@ != "polar"@);
}

/// Distinct names give distinct coordinate systems: two names that build the
/// same system are the same name.
pub proof fn law_named_systems_are_distinct(a: Seq<char>, b: Seq<char>)
    requires
        coordinate_system_named(a) is Some,
        coordinate_system_named(a) == coordinate_system_named(b),
    ensures
        a == b,
{
    reveal_strlit("x");
    reveal_strlit("y");
    reveal_strlit("radius");
    reveal_strlit("angle");
    reveal_strlit("cartesian");
    reveal_strlit("polar");
    assert("x"@ != "y"@ && "x"@ != "radius"@ && "x"@ != "angle"@ && "x"@ != "cartesian"@ && "x"@
        != "polar"@) by {
        assert("x"@[0] != "y"@[0]);
    }
    assert("y"@ != "radius"@ && "y"@ != "angle"@ && "y"@ != "cartesian"@ && "y"@ != "polar"@) by {
        assert("y"@.len() != "radius"@.len());
        assert("y"@.len() != "angle"@.len());
        assert("y"@.len() != "cartesian"@.len());
        assert("y"@.len() != "polar"@.len());
    }
    assert("radius"@ != "angle"@ && "radius"@ != "cartesian"@ && "radius"@ != "polar"@) by {
        assert("radius"@[0] != "angle"@[0]);
        assert("radius"@[0] != "cartesian"@[0]);
        assert("radius"@[0] != "polar"@[0]);
    }
    assert("angle"@ != "cartesian"@ && "angle"@ != "polar"@) by {
        assert("angle"@[0] != "cartesian"@[0]);
    }
    assert("cartesian"@ != "polar"@);
}

/// The coordinate system configured under `name`, or an error for an unknown
/// name.
pub fn build_coordinate_system(name: &str) -> (r: Result<CoordinateSystemKind, PipelineError>)
    ensures
        r matches Ok(k) ==> coordinate_system_named(name@) == Some(k),
        r matches Err(e) ==> coordinate_system_named(name@) is None && (
        e matches PipelineError::UnknownCoordinateSystem(n) && n@ == name@),
{
    if same_text(name, "cartesian") {
        Ok(CoordinateSystemKind::ComplexCartesian)
    }     else if same_text(name, "polar") {
        Ok(CoordinateSystemKind::ComplexPolar)
    }     else if same_text(name, "x") {
        Ok(CoordinateSystemKind::ProjectionX)
    }     else if same_text(name, "y") {
        Ok(CoordinateSystemKind::ProjectionY)
    }     else if same_text(name, "radius") {
        Ok(CoordinateSystemKind::RadiusProjection)
    }     else if same_text(name, "angle") {
        Ok(CoordinateSystemKind::AngleProjection)
    } else {
        Err(PipelineError::UnknownCoordinateSystem(String::from_str(name)))
    }
}

/// The first of the `required` axes that has no range among `present`.
pub open spec fn first_missing(required: Seq<Seq<char>>, present: Seq<Seq<char>>) -> Option<
    Seq<char>,
>
    decreases required.len(),
{
    if required.len() == 0 {
        None
    } else if !present.contains(required[0]) {
        Some(required[0])
    } else {
        first_missing(required.drop_first(), present)
    }
}

/// Checks that every axis of `system` has a range among the configured
/// `present` axes; the first that has none is reported.
pub fn check_ranges(system: &CoordinateSystemKind, present: &Vec<String>) -> (r: Result<
    (),
    PipelineError,
>)
    ensures
        r is Ok <==> first_missing(system.axis_names(), present@.map_values(|s: String| s@)) is None,
        r matches Err(e) ==> (e matches PipelineError::MissingRange(a) && first_missing(
            system.axis_names(),
            present@.map_values(|s: String| s@),
        ) == Some(a@)),
{
    let axes = system.axes();
    let ghost names = axis_views(axes@);
    let ghost given = present@.map_values(|s: String| s@);
    assert(names.skip(0) =~= names);
    let mut i: usize = 0;
    while i < axes.len()
        invariant
            i <= axes@.len(),
            names == axis_views(axes@),
            names == system.axis_names(),
            given == present@.map_values(|s: String| s@),
            first_missing(names, given) == first_missing(names.skip(i as int), given),
        decreases axes.len() - i,
    {
        let axis = axes[i];
        let mut found = false;
        let mut j: usize = 0;
        while j < present.len()
            invariant
                j <= present@.len(),
                i < axes@.len(),
                axis == axes@[i as int],
                given == present@.map_values(|s: String| s@),
                found <==> exists|k: int| 0 <= k < j && given[k] == axis@,
            decreases present.len() - j,
        {
            assert(given[j as int] == present@[j as int]@);
            if same_text(present[j].as_str(), axis) {
                found = true;
            }
            j = j + 1;
        }
        let ghost rest = names.skip(i as int);
        assert(rest[0] == axis@);
        assert(rest.drop_first() =~= names.skip(i as int + 1));
        if !found {
            proof {
                if given.contains(axis@) {
                    let k = choose|k: int| 0 <= k < given.len() && given[k] == axis@;
                    assert(false);
                }
            }
            return Err(PipelineError::MissingRange(String::from_str(axis)));
        }
        i = i + 1;
    }
    assert(names.skip(i as int) =~= Seq::<Seq<char>>::empty());
    Ok(())
}

/// The attractor window of an analysis: the configured one, or a third of the
/// terms but at least 50.
pub fn default_attractor_window(attractor_window: Option<usize>, max_terms: usize) -> (r: usize)
    ensures
        r == match attractor_window {
            Some(w) => w as int,
            None => if max_terms / 3 >= 50 {
                (max_terms / 3) as int
            } else {
                50
            },
        },
{
    match attractor_window {
        Some(w) => w,
        None => {
            let third = max_terms / 3;
            if third >= 50 {
                third
            } else {
                50
            }
        },
    }
}

/// The three fields of an axis range written as `minimum,maximum,steps`,
/// each trimmed; a text that does not split into exactly three fields at its
/// commas is refused.
pub fn axis_range_fields(text: &str) -> (r: Result<Vec<String>, PipelineError>)
    ensures
        r is Ok <==> split_on(text@, ',').len() == 3,
        r matches Ok(v) ==> texts(v@) == trimmed(split_on(text@, ',')),
        r matches Err(e) ==> (e matches PipelineError::RangeFormat(t) && t@ == text@),
{
    let fields = split_trimmed(text, ',');
    assert(texts(fields@).len() == fields@.len());
    assert(trimmed(split_on(text@, ',')).len() == split_on(text@, ',').len());
    if fields.len() != 3 {
        return Err(PipelineError::RangeFormat(String::from_str(text)));
    }
    Ok(fields)
}

} // verus!
