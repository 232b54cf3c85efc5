use cbeta_pdf_creator::units::{
    clamp_i64, div_trunc, scale_i64, MAX_KERN, MAX_LENGTH, MAX_MULTIPLIER, MAX_TEXT_CHARS,
    MAX_TRACKING, PER_CHAR_LIMIT,
};

#[test]
fn clamping() {
    assert_eq!(clamp_i64(5, 0, 10), 5);
    assert_eq!(clamp_i64(-5, 0, 10), 0);
    assert_eq!(clamp_i64(15, 0, 10), 10);
    assert_eq!(clamp_i64(0, 0, 0), 0);
    assert_eq!(clamp_i64(i64::MIN, -3, 3), -3);
    assert_eq!(clamp_i64(i64::MAX, -3, 3), 3);
}

#[test]
fn division_rounds_toward_zero() {
    assert_eq!(div_trunc(7, 2), 3);
    assert_eq!(div_trunc(-7, 2), -3);
    assert_eq!(div_trunc(6, 2), 3);
    assert_eq!(div_trunc(-6, 2), -3);
    assert_eq!(div_trunc(0, 5), 0);
    assert_eq!(div_trunc(-1, 1000), 0);
    assert_eq!(div_trunc(999, 1000), 0);
    assert_eq!(div_trunc(i64::MAX, 1), i64::MAX);
    assert_eq!(div_trunc(i64::MIN + 1, 1), i64::MIN + 1);
}

#[test]
fn scaling() {
    assert_eq!(scale_i64(13_000, 1400, 1000), 18_200);
    assert_eq!(scale_i64(12_000, 8, 1000), 96);
    assert_eq!(scale_i64(-80, 12_000, 1000), -960);
    assert_eq!(scale_i64(12_500, -1, 1000), -12);
    assert_eq!(scale_i64(1, 1, 3), 0);
}

#[test]
fn one_paragraph_of_the_widest_characters_fits_the_machine_integer() {
    // an advance, a kerning value of a face with one unit per em, and the tracking
    let one = MAX_LENGTH as i128
        + MAX_KERN as i128 * MAX_LENGTH as i128
        + MAX_TRACKING as i128 * MAX_LENGTH as i128 / 1000;
    assert!(one <= PER_CHAR_LIMIT as i128);
    assert!(4 * MAX_TEXT_CHARS as i128 * PER_CHAR_LIMIT as i128 <= i64::MAX as i128);
    assert_eq!(MAX_MULTIPLIER, 1_000_000);
}
