//! The coordinate systems onto which sequence values are projected, by name
//! and axes.
use vstd::prelude::*;

verus! {

/// The views of a list of axis names.
pub open spec fn axis_views(axes: Seq<&'static str>) -> Seq<Seq<char>> {
    axes.map_values(|a: &'static str| a@)
}

/// A coordinate system: a name and the axes of the coordinates it gives.
pub trait CoordinateSystem {
    spec fn system_name(&self) -> Seq<char>;

    spec fn axis_names(&self) -> Seq<Seq<char>>;

    /// The name of the system.
    fn name(&self) -> (r: &'static str)
        ensures
            r@ == self.system_name(),
    ;

    /// The axes of the system, in order.
    fn axes(&self) -> (r: &'static [&'static str])
        ensures
            axis_views(r@) == self.axis_names(),
    ;
}

/// The real line: the real part of a value, which must have no imaginary part.
pub struct RealLineCoordinates;

impl CoordinateSystem for RealLineCoordinates {
    open spec fn system_name(&self) -> Seq<char> {
        "real_line"@
    }

    open spec fn axis_names(&self) -> Seq<Seq<char>> {
        seq!["x"@]
    }

    fn name(&self) -> (r: &'static str) {
        "real_line"
    }

    fn axes(&self) -> (r: &'static [&'static str]) {
        let r: &'static [&'static str] = &["x"];
        assert(axis_views(r@) =~= seq!["x"@]);
        r
    }
}

/// The complex plane in Cartesian form: real and imaginary parts.
pub struct ComplexCartesianCoordinates;

impl CoordinateSystem for ComplexCartesianCoordinates {
    open spec fn system_name(&self) -> Seq<char> {
        "complex_cartesian"@
    }

    open spec fn axis_names(&self) -> Seq<Seq<char>> {
        seq!["x"@, "y"@]
    }

    fn name(&self) -> (r: &'static str) {
        "complex_cartesian"
    }

    fn axes(&self) -> (r: &'static [&'static str]) {
        let r: &'static [&'static str] = &["x", "y"];
        assert(axis_views(r@) =~= seq!["x"@, "y"@]);
        r
    }
}

/// The complex plane in polar form: modulus and argument in [0, 2π).
pub struct ComplexPolarCoordinates;

impl CoordinateSystem for ComplexPolarCoordinates {
    open spec fn system_name(&self) -> Seq<char> {
        "complex_polar"@
    }

    open spec fn axis_names(&self) -> Seq<Seq<char>> {
        seq!["r"@, "theta"@]
    }

    fn name(&self) -> (r: &'static str) {
        "complex_polar"
    }

    fn axes(&self) -> (r: &'static [&'static str]) {
        let r: &'static [&'static str] = &["r", "theta"];
        assert(axis_views(r@) =~= seq!["r"@, "theta"@]);
        r
    }
}

/// The projection on the real axis.
pub struct ProjectionXCoordinates;

impl CoordinateSystem for ProjectionXCoordinates {
    open spec fn system_name(&self) -> Seq<char> {
        "projection_x"@
    }

    open spec fn axis_names(&self) -> Seq<Seq<char>> {
        seq!["x"@]
    }

    fn name(&self) -> (r: &'static str) {
        "projection_x"
    }

    fn axes(&self) -> (r: &'static [&'static str]) {
        let r: &'static [&'static str] = &["x"];
        assert(axis_views(r@) =~= seq!["x"@]);
        r
    }
}

/// The projection on the imaginary axis.
pub struct ProjectionYCoordinates;

impl CoordinateSystem for ProjectionYCoordinates {
    open spec fn system_name(&self) -> Seq<char> {
        "projection_y"@
    }

    open spec fn axis_names(&self) -> Seq<Seq<char>> {
        seq!["y"@]
    }

    fn name(&self) -> (r: &'static str) {
        "projection_y"
    }

    fn axes(&self) -> (r: &'static [&'static str]) {
        let r: &'static [&'static str] = &["y"];
        assert(axis_views(r@) =~= seq!["y"@]);
        r
    }
}

/// The projection on the modulus.
pub struct RadiusProjectionCoordinates;

impl CoordinateSystem for RadiusProjectionCoordinates {
    open spec fn system_name(&self) -> Seq<char> {
        "radius_projection"@
    }

    open spec fn axis_names(&self) -> Seq<Seq<char>> {
        seq!["r"@]
    }

    fn name(&self) -> (r: &'static str) {
        "radius_projection"
    }

    fn axes(&self) -> (r: &'static [&'static str]) {
        let r: &'static [&'static str] = &["r"];
        assert(axis_views(r@) =~= seq!["r"@]);
        r
    }
}

/// The projection on the argument, in [0, 2π).
pub struct AngleProjectionCoordinates;

impl CoordinateSystem for AngleProjectionCoordinates {
    open spec fn system_name(&self) -> Seq<char> {
        "angle_projection"@
    }

    open spec fn axis_names(&self) -> Seq<Seq<char>> {
        seq!["theta"@]
    }

    fn name(&self) -> (r: &'static str) {
        "angle_projection"
    }

    fn axes(&self) -> (r: &'static [&'static str]) {
        let r: &'static [&'static str] = &["theta"];
        assert(axis_views(r@) =~= seq!["theta"@]);
        r
    }
}

} // verus!
