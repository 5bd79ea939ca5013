use spaceflight::orbit::{classify_orbit, DegenerateReason, OrbitKind, Sign};

fn sign_of(x: f64) -> Sign {
    if x > 0.0 {
        Sign::Positive
    } else if x < 0.0 {
        Sign::Negative
    } else {
        Sign::Zero
    }
}

#[test]
fn position_at_center_is_degenerate() {
    for d in [Sign::Negative, Sign::Zero, Sign::Positive] {
        for q in [Sign::Negative, Sign::Zero, Sign::Positive] {
            assert_eq!(classify_orbit(true, d, q), Err(DegenerateReason::DegenerateGeometry));
        }
    }
}

#[test]
fn zero_denominator_is_parabolic() {
    // v² · r == 2 · G · m with G = 1, m = 2, r = 1, v = 2.
    let (g, m, r, v) = (1.0f64, 2.0f64, 1.0f64, 2.0f64);
    let denominator = 2.0 * g * m - v * v * r;
    assert_eq!(
        classify_orbit(false, sign_of(denominator), Sign::Negative),
        Err(DegenerateReason::ParabolicDenominatorZero)
    );
    assert_eq!(
        classify_orbit(false, Sign::Zero, Sign::Positive),
        Err(DegenerateReason::ParabolicDenominatorZero)
    );
}

#[test]
fn negative_radicand_is_reported() {
    assert_eq!(
        classify_orbit(false, Sign::Positive, Sign::Negative),
        Err(DegenerateReason::NegativeRadicand)
    );
    assert_eq!(
        classify_orbit(false, Sign::Negative, Sign::Negative),
        Err(DegenerateReason::NegativeRadicand)
    );
}

#[test]
fn branch_follows_sign_of_semi_major_axis() {
    assert_eq!(classify_orbit(false, Sign::Positive, Sign::Positive), Ok(OrbitKind::Elliptical));
    assert_eq!(classify_orbit(false, Sign::Positive, Sign::Zero), Ok(OrbitKind::Elliptical));
    assert_eq!(classify_orbit(false, Sign::Negative, Sign::Positive), Ok(OrbitKind::Hyperbolic));
}

#[test]
fn low_earth_state_is_elliptical() {
    // m = 5.972e24, G = 6.6e-11, pos = (42000, 0), vel = (0, 3074).
    let gm = 6.6e-11f64 * 5.972e24f64;
    let (r, v) = (42000.0f64, 3074.0f64);
    let denominator = 2.0 * gm - v * v * r;
    let a = gm * r / denominator;
    let rvsin = r * v;
    let radicand = 1.0 - rvsin * rvsin / (gm * a);
    assert_eq!(
        classify_orbit(false, sign_of(denominator), sign_of(radicand)),
        Ok(OrbitKind::Elliptical)
    );
}

#[test]
fn radial_fall_is_elliptical() {
    // vel = (0, 0): the denominator is 2·G·m and the radicand exactly one.
    let gm = 1.0f64 * 3.0f64;
    let (r, v) = (10.0f64, 0.0f64);
    let denominator = 2.0 * gm - v * v * r;
    let radicand = 1.0 - (r * v) * (r * v) / (gm * (gm * r / denominator));
    assert_eq!(radicand, 1.0);
    assert_eq!(
        classify_orbit(false, sign_of(denominator), sign_of(radicand)),
        Ok(OrbitKind::Elliptical)
    );
}
