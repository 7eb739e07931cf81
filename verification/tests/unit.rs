use choreo_optimize::unit::{expr_text, literal_unit, perturbed_exp, unit_or_fallback};

#[test]
fn literal_unit_of_plain_literals() {
    assert_eq!(literal_unit("1.5 m"), Some("m".to_string()));
    assert_eq!(literal_unit("-2 in"), Some("in".to_string()));
    assert_eq!(literal_unit("0 deg"), Some("deg".to_string()));
    assert_eq!(literal_unit("+.5rad"), Some("rad".to_string()));
    assert_eq!(literal_unit("3.14159 rad"), Some("rad".to_string()));
}

#[test]
fn literal_unit_trims_the_expression() {
    assert_eq!(literal_unit("  -2 in \t"), Some("in".to_string()));
}

#[test]
fn literal_unit_rejects_non_literals() {
    assert_eq!(literal_unit("2 * x + 1 m"), None);
    assert_eq!(literal_unit("m"), None);
    assert_eq!(literal_unit("1.5"), None);
    assert_eq!(literal_unit(""), None);
    assert_eq!(literal_unit("1.5 m s"), None);
}

#[test]
fn unit_or_fallback_prefers_the_found_unit() {
    assert_eq!(unit_or_fallback(Some("deg".to_string()), "rad"), "deg");
    assert_eq!(unit_or_fallback(None, "rad"), "rad");
}

#[test]
fn expr_text_joins_with_a_space() {
    assert_eq!(expr_text("1.6", "m"), "1.6 m");
    assert_eq!(expr_text("-0.25", "deg"), "-0.25 deg");
}

#[test]
fn perturbed_exp_preserves_unit() {
    assert_eq!(perturbed_exp("1.6", "1.5 m", "m"), "1.6 m");
    assert_eq!(perturbed_exp("3.14259", "3.14159 rad", "rad"), "3.14259 rad");
    assert_eq!(perturbed_exp("2", "1 in", "m"), "2 in");
}

#[test]
fn perturbed_exp_falls_back_to_default_unit() {
    assert_eq!(perturbed_exp("3.25", "2 * x + 1 m", "m"), "3.25 m");
}

