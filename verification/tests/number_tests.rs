use quasar::alum::number::is_float_text;

#[test]
fn float_text_agrees_with_f64() {
    let cases = [
        "1", "1.", ".5", "50.05", ".", "", "1.2.3", "..", "007", "+1", "-.5", "+", "-",
        "inf", "INF", "Infinity", "-infinity", "nan", "NaN", "+nan", "infinit", "1e5", "1E5",
        "1e+5", "1e-5", "1e", "e5", ".e5", "1.e5", ".5e5", "1e5.", "1e+", " 1", "1 ", "0x10",
        "1_000", "١",
    ];
    for c in cases.iter() {
        assert_eq!(is_float_text(c), c.parse::<f64>().is_ok(), "text {:?}", c);
    }
}

#[test]
fn float_text_examples() {
    assert!(is_float_text("50.05"));
    assert!(is_float_text("1."));
    assert!(!is_float_text("."));
    assert!(!is_float_text("1.2.3"));
}
