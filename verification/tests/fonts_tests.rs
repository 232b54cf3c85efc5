use cbeta_pdf_creator::fonts::{kerning_key, FontContext, GlyphMetrics, Justification};

fn context() -> FontContext {
    let chinese = GlyphMetrics::new(13_000, 1000);
    let mut english = GlyphMetrics::new(6_000, 1000);
    english.set_advance('i', 3_000);
    english.set_advance('W', 11_000);
    english.set_kerning('A', 'V', -80);
    FontContext::initialize_fonts(
        chinese,
        "SimSun".to_string(),
        "C:\\Windows\\Fonts\\simsun.ttc".to_string(),
        Vec::new(),
        english,
        "Times New Roman".to_string(),
        "times.ttf".to_string(),
        Vec::new(),
    )
}

#[test]
fn default_settings() {
    let ctx = context();
    assert!(ctx.is_valid());
    assert_eq!(ctx.page_width, 595_000);
    assert_eq!(ctx.page_height, 842_000);
    assert_eq!(ctx.margin, 72_000);
    assert_eq!(ctx.font_size_chinese, 13_000);
    assert_eq!(ctx.font_size_english, 12_000);
    assert_eq!(ctx.line_spacing, 1400);
    assert_eq!(ctx.tracking_chinese, 12);
    assert_eq!(ctx.tracking_english, 8);
    assert!(ctx.justification == Justification::Justify);
    assert_eq!(ctx.paragraph_spacing, 600);
    assert_eq!(ctx.chinese_font_name, "SimSun");
    assert_eq!(ctx.english_font_path, "times.ttf");
}

#[test]
fn kerning_key_packs_both_characters() {
    assert_eq!(kerning_key('A', 'V'), (0x41u64 << 32) | 0x56);
    assert_eq!(kerning_key('\u{10FFFF}', '\0'), 0x10FFFFu64 << 32);
    assert!(kerning_key('A', 'V') != kerning_key('V', 'A'));
}

#[test]
fn table_lookups() {
    let ctx = context();
    assert_eq!(ctx.english_font.advance('i'), 3_000);
    assert_eq!(ctx.english_font.advance('x'), 6_000);
    assert_eq!(ctx.english_font.kern('A', 'V'), -80);
    assert_eq!(ctx.english_font.kern('V', 'A'), 0);
    assert_eq!(ctx.english_font.units(), 1000);
    assert_eq!(ctx.chinese_font.advance('佛'), 13_000);
}

#[test]
fn values_out_of_range_are_read_as_the_nearest_bound() {
    let mut m = GlyphMetrics::new(-5, 0);
    m.set_advance('a', 30_000_000);
    m.set_kerning('a', 'b', -200_000);
    m.set_kerning('b', 'a', 200_000);
    assert_eq!(m.advance('z'), 0);
    assert_eq!(m.advance('a'), 20_000_000);
    assert_eq!(m.kern('a', 'b'), -50_000);
    assert_eq!(m.kern('b', 'a'), 50_000);
    assert_eq!(m.units(), 1);
}

#[test]
fn width_of_empty_and_single_character_text() {
    let ctx = context();
    assert_eq!(ctx.calculate_text_width("", false), 0);
    assert_eq!(ctx.calculate_text_width("i", false), 3_000);
    assert_eq!(ctx.calculate_text_width("佛", true), 13_000);
}

#[test]
fn width_adds_advances_kerning_and_tracking() {
    let ctx = context();
    // tracking 8/1000 em of 12 pt is 0.096 pt between neighbours
    assert_eq!(ctx.gap_between('a', 'b', false), 96);
    assert_eq!(ctx.calculate_text_width("abc", false), 3 * 6_000 + 2 * 96);
    // kerning -80 units of 1000 per em at 12 pt is -0.96 pt
    assert_eq!(ctx.gap_between('A', 'V', false), -960 + 96);
    assert_eq!(ctx.calculate_text_width("AV", false), 12_000 - 960 + 96);
    // tracking 12/1000 em of 13 pt is 0.156 pt
    assert_eq!(ctx.calculate_text_width("佛說", true), 26_000 + 156);
}

#[test]
fn negative_tracking_rounds_toward_zero() {
    let mut ctx = context();
    ctx.set_options(595_000, 842_000, 72_000, 13_000, 12_500, 1400, 12, -1, 600);
    // -1/1000 em of 12.5 pt is -0.0125 pt, which is -12.5 thousandths
    assert_eq!(ctx.gap_between('a', 'b', false), -12);
}

#[test]
fn line_height_and_content_area() {
    let ctx = context();
    assert_eq!(ctx.get_line_height(true), 18_200);
    assert_eq!(ctx.get_line_height(false), 16_800);
    assert_eq!(ctx.content_area(), (72_000, 72_000, 451_000, 698_000));
}

#[test]
fn set_options_replaces_the_nine_settings() {
    let mut ctx = context();
    ctx.set_options(400_000, 600_000, 50_000, 10_000, 9_000, 1200, 5, 3, 400);
    assert_eq!(ctx.page_width, 400_000);
    assert_eq!(ctx.page_height, 600_000);
    assert_eq!(ctx.margin, 50_000);
    assert_eq!(ctx.font_size_chinese, 10_000);
    assert_eq!(ctx.font_size_english, 9_000);
    assert_eq!(ctx.line_spacing, 1200);
    assert_eq!(ctx.tracking_chinese, 5);
    assert_eq!(ctx.tracking_english, 3);
    assert_eq!(ctx.paragraph_spacing, 400);
    assert!(ctx.justification == Justification::Justify);
    assert_eq!(ctx.chinese_font_name, "SimSun");
    assert_eq!(ctx.get_line_height(true), 12_000);
}

#[test]
fn settings_outside_the_range_are_invalid() {
    let mut ctx = context();
    ctx.font_size_english = 0;
    assert!(!ctx.is_valid());
    let mut ctx = context();
    ctx.page_width = 20_000_001;
    assert!(!ctx.is_valid());
    let mut ctx = context();
    ctx.tracking_chinese = -50_001;
    assert!(!ctx.is_valid());
    let mut ctx = context();
    ctx.line_spacing = -1;
    assert!(!ctx.is_valid());
}
