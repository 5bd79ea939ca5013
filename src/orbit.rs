//! The decision rules of the two-body orbit solver.
//!
//! The solver turns a relative position and velocity into orbit elements with
//! `a = G·m·r / (2·G·m − v²·r)` and `e = sqrt(1 − (r·v·sin(ψ − θ))² / (G·m·a))`.
//! Which of those formulas may be applied, and what is reported instead when
//! none may, depends only on the signs of a few intermediate quantities; that
//! choice is made here.
use vstd::prelude::*;

verus! {

/// The sign of a computed quantity.
#[derive(Clone, Copy, Debug, PartialEq, Eq, Structural)]
pub enum Sign {
    Negative,
    Zero,
    Positive,
}

/// The shape of a well-defined orbit, chosen by the sign of the semi-major axis.
#[derive(Clone, Copy, Debug, PartialEq, Eq, Structural)]
pub enum OrbitKind {
    /// `a > 0`: a bound orbit; apoapsis and periapsis are both defined.
    Elliptical,
    /// `a < 0`: an unbound orbit; only the periapsis is defined.
    Hyperbolic,
}

/// Why no orbit elements can be given for a state.
#[derive(Clone, Copy, Debug, PartialEq, Eq, Structural)]
pub enum DegenerateReason {
    /// `2·G·m − v²·r` is zero: the semi-major axis would be infinite.
    ParabolicDenominatorZero,
    /// `1 − (r·v·sin(ψ − θ))² / (G·m·a)` is negative: the eccentricity would not be real.
    NegativeRadicand,
    /// The body sits on the central mass (`r = 0`).
    DegenerateGeometry,
}

/// Chooses the branch of the solver for a state.
///
/// `at_center` tells whether the position is the origin; `denominator` is the
/// sign of `2·G·m − v²·r`, which (since `G·m·r > 0`) is also the sign of the
/// semi-major axis; `radicand` is the sign of the term under the square root
/// of the eccentricity. A state on the central mass is degenerate whatever
/// else holds; then a zero denominator is reported before the radicand is
/// looked at, since the radicand is only formed once `a` is finite.
pub fn classify_orbit(at_center: bool, denominator: Sign, radicand: Sign) -> (r: Result<
    OrbitKind,
    DegenerateReason,
>)
    ensures
        at_center ==> r == Err::<OrbitKind, DegenerateReason>(DegenerateReason::DegenerateGeometry),
        !at_center && denominator == Sign::Zero ==> r == Err::<OrbitKind, DegenerateReason>(
            DegenerateReason::ParabolicDenominatorZero,
        ),
        !at_center && denominator != Sign::Zero && radicand == Sign::Negative ==> r == Err::<
            OrbitKind,
            DegenerateReason,
        >(DegenerateReason::NegativeRadicand),
        !at_center && denominator == Sign::Positive && radicand != Sign::Negative ==> r == Ok::<
            OrbitKind,
            DegenerateReason,
        >(OrbitKind::Elliptical),
        !at_center && denominator == Sign::Negative && radicand != Sign::Negative ==> r == Ok::<
            OrbitKind,
            DegenerateReason,
        >(OrbitKind::Hyperbolic),
{
    if at_center {
        Err(DegenerateReason::DegenerateGeometry)
    } else {
        match denominator {
            Sign::Zero => Err(DegenerateReason::ParabolicDenominatorZero),
            _ => match radicand {
                Sign::Negative => Err(DegenerateReason::NegativeRadicand),
                _ => match denominator {
                    Sign::Positive => Ok(OrbitKind::Elliptical),
                    _ => Ok(OrbitKind::Hyperbolic),
                },
            },
        }
    }
}

} // verus!
