use cbeta_pdf_creator::fonts::{FontContext, GlyphMetrics, Justification};
use cbeta_pdf_creator::breaking::{hyphenation_points_of, prefix_of, split_at, suffix_of};
use cbeta_pdf_creator::tidy::{leading_run_len, trailing_run_len};
use cbeta_pdf_creator::tokens::{tokens_end_with_hyphen, tokens_to_text};
use cbeta_pdf_creator::typography::{
    create_layout_engine, FormattedLine, LayoutError, SpaceAdjustment, TextLayoutEngine, TextToken,
};

/// Latin characters are 6 pt wide, Chinese ones 13 pt; no kerning, no tracking.
fn plain_context() -> FontContext {
    let mut ctx = FontContext::initialize_fonts(
        GlyphMetrics::new(13_000, 1000),
        "SimSun".to_string(),
        "simsun.ttc".to_string(),
        Vec::new(),
        GlyphMetrics::new(6_000, 1000),
        "Times".to_string(),
        "times.ttf".to_string(),
        Vec::new(),
    );
    ctx.set_options(595_000, 842_000, 72_000, 13_000, 12_000, 1400, 0, 0, 600);
    ctx
}

fn engine() -> TextLayoutEngine {
    TextLayoutEngine::new(plain_context())
}

fn word(s: &str) -> TextToken {
    TextToken::Word(s.to_string())
}

fn line_of(tokens: Vec<TextToken>, width: i64) -> FormattedLine {
    FormattedLine {
        text: tokens_to_text(&tokens),
        x: 0,
        y: 0,
        width,
        height: 16_800,
        is_chinese: false,
        font_size: 12_000,
        baseline: 0,
        tokens,
        space_adjustments: Vec::new(),
        is_justified: false,
        hyphenated: false,
    }
}

fn words_line(e: &TextLayoutEngine, words: &[&str]) -> FormattedLine {
    let mut tokens = Vec::new();
    for w in words {
        tokens.push(word(w));
        tokens.push(TextToken::Space);
    }
    let width = e.calculate_line_width(&tokens, false);
    line_of(tokens, width)
}

#[test]
fn quotes_open_at_the_start_and_after_white_space() {
    let e = engine();
    assert_eq!(e.normalize_punctuation("\"Hi\" she said"), "\u{201C}Hi\u{201D} she said");
    assert_eq!(e.normalize_punctuation("a \"b"), "a \u{201C}b");
    assert_eq!(e.normalize_punctuation("'tis"), "\u{2018}tis");
    assert_eq!(e.normalize_punctuation("don't"), "don\u{2019}t");
    assert_eq!(e.normalize_punctuation("(\"x\")"), "(\u{201D}x\u{201D})");
    assert_eq!(e.normalize_punctuation("\t'a'"), "\t\u{2018}a\u{2019}");
}

#[test]
fn three_periods_become_an_ellipsis() {
    let e = engine();
    assert_eq!(e.normalize_punctuation("Wait..."), "Wait\u{2026}");
    assert_eq!(e.normalize_punctuation("...."), "\u{2026}.");
    assert_eq!(e.normalize_punctuation(".."), "..");
    assert_eq!(e.normalize_punctuation("a...b...c"), "a\u{2026}b\u{2026}c");
    assert_eq!(e.normalize_punctuation("......"), "\u{2026}\u{2026}");
}

#[test]
fn two_hyphens_become_an_em_dash() {
    let e = engine();
    assert_eq!(e.normalize_punctuation("a--b"), "a\u{2014}b");
    assert_eq!(e.normalize_punctuation("---"), "\u{2014}-");
    assert_eq!(e.normalize_punctuation("-"), "-");
    assert_eq!(e.normalize_punctuation("well-known"), "well-known");
}

#[test]
fn normalization_keeps_other_text() {
    let e = engine();
    assert_eq!(e.normalize_punctuation(""), "");
    assert_eq!(e.normalize_punctuation("佛說，經。"), "佛說，經。");
}

#[test]
fn latin_tokens() {
    let e = engine();
    assert_eq!(
        e.tokenize_text("Hello,  world!", false),
        vec![
            word("Hello"),
            TextToken::Punctuation(','),
            TextToken::Space,
            word("world"),
            TextToken::Punctuation('!'),
        ]
    );
}

#[test]
fn latin_white_space_runs_collapse() {
    let e = engine();
    assert_eq!(
        e.tokenize_text(" a \t\n b  ", false),
        vec![TextToken::Space, word("a"), TextToken::Space, word("b"), TextToken::Space]
    );
    assert_eq!(e.tokenize_text("   ", false), vec![TextToken::Space]);
    assert_eq!(
        e.tokenize_text("a ,  b", false),
        vec![
            word("a"),
            TextToken::Space,
            TextToken::Punctuation(','),
            TextToken::Space,
            word("b"),
        ]
    );
}

#[test]
fn latin_words_keep_apostrophes_and_hyphens() {
    let e = engine();
    assert_eq!(
        e.tokenize_text("well-known don't", false),
        vec![word("well-known"), TextToken::Space, word("don't")]
    );
    assert_eq!(e.tokenize_text("caf\u{E9}\u{2019}s", false), vec![word("caf\u{E9}\u{2019}s")]);
}

#[test]
fn soft_hyphen_is_a_token_of_its_own() {
    let e = engine();
    assert_eq!(
        e.tokenize_text("co\u{AD}operate", false),
        vec![word("co"), TextToken::DiscretionaryHyphen, word("operate")]
    );
    assert_eq!(
        e.tokenize_text("佛\u{AD}說", true),
        vec![word("佛"), TextToken::DiscretionaryHyphen, word("說")]
    );
}

#[test]
fn chinese_tokens() {
    let e = engine();
    assert_eq!(
        e.tokenize_text("佛說，經。", true),
        vec![
            word("佛"),
            word("說"),
            TextToken::Punctuation('，'),
            word("經"),
            TextToken::Punctuation('。'),
        ]
    );
    assert_eq!(
        e.tokenize_text("一  二,", true),
        vec![word("一"), TextToken::Space, TextToken::Space, word("二"), word(",")]
    );
    assert!(e.tokenize_text("", true).is_empty());
    assert!(e.tokenize_text("", false).is_empty());
}

#[test]
fn chinese_punctuation_set() {
    let e = engine();
    for c in "，。；：？！「」『』（）".chars() {
        assert!(e.is_chinese_punctuation(c));
        assert!(e.is_natural_break_point(c));
    }
    for c in ",.;:?!()、《》 佛a".chars() {
        assert!(!e.is_chinese_punctuation(c));
    }
}

#[test]
fn token_text_round_trip() {
    let tokens = vec![
        word("Thus"),
        TextToken::Space,
        word("have"),
        TextToken::Punctuation(','),
        TextToken::DiscretionaryHyphen,
        word("I"),
    ];
    assert_eq!(tokens_to_text(&tokens), "Thus have,-I");
    let line = line_of(tokens, 0);
    assert_eq!(line.tokens_to_string(), "Thus have,-I");
    assert_eq!(line.tokens_to_string(), line.text);
    assert_eq!(line.word_count(), 3);
}

#[test]
fn lines_that_end_with_a_hyphen() {
    assert!(tokens_end_with_hyphen(&vec![word("a"), TextToken::Punctuation('-')]));
    assert!(tokens_end_with_hyphen(&vec![
        word("a"),
        TextToken::DiscretionaryHyphen,
        TextToken::Space,
        TextToken::Space
    ]));
    assert!(!tokens_end_with_hyphen(&vec![word("a"), TextToken::Punctuation(',')]));
    assert!(!tokens_end_with_hyphen(&vec![TextToken::Punctuation('-'), word("a")]));
    assert!(!tokens_end_with_hyphen(&vec![TextToken::Space]));
    assert!(!tokens_end_with_hyphen(&Vec::new()));
    assert!(line_of(vec![word("co"), TextToken::DiscretionaryHyphen], 0).ends_with_hyphen());
    assert!(!line_of(vec![word("well-")], 0).ends_with_hyphen());
}

#[test]
fn short_words_are_never_split() {
    let e = engine();
    for w in ["", "a", "short", "queue", "αβγδε", "ouaei"] {
        assert_eq!(e.find_hyphenation_points(w), None, "{}", w);
    }
}

#[test]
fn capitalized_words_are_never_split() {
    let e = engine();
    for w in ["Buddha", "Information", "Éclairage", "Ωmegaaaaaa", "Ärgerlichkeit", "Я-information"] {
        assert_eq!(e.find_hyphenation_points(w), None, "{}", w);
    }
}

#[test]
fn split_points_follow_vowels_away_from_the_ends() {
    let e = engine();
    assert_eq!(e.find_hyphenation_points("information"), Some(vec![4, 7]));
    assert_eq!(e.find_hyphenation_points("beautiful"), Some(vec![3, 4]));
    assert_eq!(e.find_hyphenation_points("banana"), None);
    assert_eq!(e.find_hyphenation_points("rhythms"), Some(vec![3]));
    assert_eq!(e.find_hyphenation_points("strengths"), Some(vec![4]));
    assert_eq!(e.find_hyphenation_points("rhythmless"), Some(vec![3]));
    assert_eq!(e.find_hyphenation_points("crwthsbwlch"), None);
    assert_eq!(e.find_hyphenation_points("aaaaaaaa"), Some(vec![3, 4]));
    assert_eq!(e.find_hyphenation_points("αβγδεζηθ"), None);
    assert_eq!(e.find_hyphenation_points("éclairage"), Some(vec![4, 5]));
}

#[test]
fn breaks_after_spaces_commas_semicolons_and_soft_hyphens() {
    let e = engine();
    let tokens = vec![
        word("a"),
        TextToken::Space,
        word("b"),
        TextToken::Punctuation(','),
        word("c"),
        TextToken::Punctuation(';'),
        word("d"),
        TextToken::DiscretionaryHyphen,
        word("e"),
        TextToken::Punctuation('.'),
        word("f"),
    ];
    assert_eq!(e.find_breakpoints(&tokens, false), vec![2, 4, 6, 8, 11]);
    assert_eq!(e.find_breakpoints(&tokens, true), vec![2, 4, 6, 8, 11]);
}

#[test]
fn the_end_of_the_paragraph_is_a_break() {
    let e = engine();
    assert_eq!(e.find_breakpoints(&Vec::new(), false), vec![0]);
    assert_eq!(e.find_breakpoints(&vec![word("a")], false), vec![1]);
    assert_eq!(e.find_breakpoints(&vec![TextToken::Space], true), vec![1]);
}

#[test]
fn a_word_allows_no_break_between_tokens() {
    let e = engine();
    let tokens = vec![
        word("x"),
        word("information"),
        word("a"),
        word("b"),
        word("c"),
        word("d"),
        word("e"),
        word("f"),
        word("g"),
    ];
    assert_eq!(e.find_breakpoints(&tokens, false), vec![9]);
    assert_eq!(e.find_breakpoints(&tokens, true), vec![9]);
    let short = vec![word("information"), TextToken::Space, word("a")];
    assert_eq!(e.find_breakpoints(&short, false), vec![2, 3]);
    assert_eq!(e.find_breakpoints(&short, true), vec![2, 3]);
}

fn two_words() -> Vec<TextToken> {
    vec![word("aaaa"), TextToken::Space, word("information")]
}

#[test]
fn a_word_is_split_at_the_last_point_that_fits() {
    let e = engine();
    // each character is 6 pt wide; the word may be split before 4 and 7
    assert_eq!(e.find_hyphenation_points("information"), Some(vec![4, 7]));
    let (tokens, breaks) = e.greedy_line_breaks(&two_words(), &vec![2, 3], 72_000, false);
    assert_eq!(tokens, vec![word("aaaa"), TextToken::Space, word("informa"), word("tion")]);
    assert_eq!(breaks, vec![3, 4]);
    let (tokens, breaks) = e.greedy_line_breaks(&two_words(), &vec![2, 3], 71_999, false);
    assert_eq!(tokens, vec![word("aaaa"), TextToken::Space, word("info"), word("rmation")]);
    assert_eq!(breaks, vec![3, 4]);
    let (tokens, breaks) = e.greedy_line_breaks(&two_words(), &vec![2, 3], 54_000, false);
    assert_eq!(tokens, vec![word("aaaa"), TextToken::Space, word("info"), word("rmation")]);
    assert_eq!(breaks, vec![3, 4]);
}

#[test]
fn the_last_split_that_fits_is_chosen() {
    let e = engine();
    let chars: Vec<char> = "information".chars().collect();
    // 6 pt a character; the word may be split before 4 and 7
    assert_eq!(e.fitting_split_of(&chars, false, 0, 42_000, false), 7);
    assert_eq!(e.fitting_split_of(&chars, false, 0, 41_999, false), 4);
    assert_eq!(e.fitting_split_of(&chars, false, 0, 24_000, false), 4);
    assert_eq!(e.fitting_split_of(&chars, false, 0, 23_999, false), 0);
    assert_eq!(e.fitting_split_of(&chars, false, 30_000, 72_000, false), 7);
    assert_eq!(e.fitting_split_of(&chars, false, 30_000, 71_999, false), 4);
    assert_eq!(e.fitting_split_of(&chars, false, -18_000, 24_000, false), 7);
    assert_eq!(e.fitting_split_of(&chars, true, 0, 42_000, false), 0);
    let short: Vec<char> = "aaaaa".chars().collect();
    assert_eq!(e.fitting_split_of(&short, false, 0, 42_000, false), 0);
    assert_eq!(e.fitting_split_of(&Vec::new(), false, 0, 42_000, false), 0);
    assert_eq!(e.fitting_split(&chars, 0, 42_000, false), 7);
    let capital: Vec<char> = "Information".chars().collect();
    assert_eq!(e.fitting_split(&capital, 0, 42_000, false), 0);
}

#[test]
fn the_last_token_that_can_be_split_is_found() {
    let e = engine();
    let tokens = vec![word("information"), TextToken::Space, word("aaaa"), word("education")];
    // "education" may be split before 3 and 5
    assert_eq!(e.find_hyphenation_points("education"), Some(vec![3, 5]));
    assert_eq!(e.split_point(&tokens, 0, 0, 42_000, false), 7);
    assert_eq!(e.split_point(&tokens, 0, 1, 200_000, false), 0);
    assert_eq!(e.split_point(&tokens, 0, 2, 200_000, false), 0);
    // 16 characters stand before the last word
    assert_eq!(e.split_point(&tokens, 0, 3, 126_000, false), 5);
    assert_eq!(e.split_point(&tokens, 0, 3, 125_999, false), 3);
    assert_eq!(e.split_point(&tokens, 0, 3, 113_999, false), 0);
    assert_eq!(e.split_point(&tokens, 3, 3, 30_000, false), 5);
    let found = e.find_split(&tokens, 0, 3, 0, 114_000, false).unwrap();
    assert_eq!((found.token, found.at), (3, 3));
    let found = e.find_split(&tokens, 0, 3, 0, 113_999, false).unwrap();
    assert_eq!((found.token, found.at), (0, 7));
    assert!(e.find_split(&tokens, 0, 3, 1, 113_999, false).is_none());
    assert!(e.find_split(&tokens, 0, 3, 0, 23_999, false).is_none());
}

#[test]
fn a_word_is_split_in_place() {
    let mut tokens = vec![word("aaaa"), word("information"), TextToken::Space];
    split_at(&mut tokens, 1, 4);
    assert_eq!(tokens, vec![word("aaaa"), word("info"), word("rmation"), TextToken::Space]);
    split_at(&mut tokens, 0, 0);
    assert_eq!(
        tokens,
        vec![word(""), word("aaaa"), word("info"), word("rmation"), TextToken::Space]
    );
    split_at(&mut tokens, 3, 7);
    assert_eq!(tokens[3], word("rmation"));
    assert_eq!(tokens[4], word(""));
    let chars: Vec<char> = "abc".chars().collect();
    assert_eq!(prefix_of(&chars, 2), vec!['a', 'b']);
    assert_eq!(suffix_of(&chars, 2), vec!['c']);
    assert!(prefix_of(&chars, 0).is_empty());
    assert!(suffix_of(&chars, 3).is_empty());
}

#[test]
fn a_word_that_fits_is_not_split() {
    let e = engine();
    let (tokens, breaks) = e.greedy_line_breaks(&two_words(), &vec![2, 3], 96_000, false);
    assert_eq!(tokens, two_words());
    assert_eq!(breaks, vec![3]);
}

#[test]
fn a_line_ends_between_tokens_where_no_part_of_the_word_fits() {
    let e = engine();
    // "aaaa info" needs 54 pt: the line ends after the space, and the
    // word, too wide for a line of its own, is split on the next line
    let (tokens, breaks) = e.greedy_line_breaks(&two_words(), &vec![2, 3], 53_999, false);
    assert_eq!(tokens, vec![word("aaaa"), TextToken::Space, word("informa"), word("tion")]);
    assert_eq!(breaks, vec![2, 3, 4]);
}

#[test]
fn a_split_word_may_be_split_again() {
    let e = engine();
    let tokens = vec![word("abababababababab")];
    assert_eq!(
        e.find_hyphenation_points("abababababababab"),
        Some(vec![3, 5, 7, 9, 11])
    );
    let (tokens, breaks) = e.greedy_line_breaks(&tokens, &vec![1], 30_000, false);
    // the rest, "bababababab", may be split before 4 and 6; what is then
    // left is too short to be split and stands on a line of its own
    assert_eq!(tokens, vec![word("ababa"), word("baba"), word("bababab")]);
    assert_eq!(breaks, vec![1, 2, 3]);
}

#[test]
fn words_that_start_with_a_capital_and_short_words_are_kept_whole() {
    let e = engine();
    let tokens = vec![word("aaaa"), TextToken::Space, word("Information")];
    let (filled, breaks) = e.greedy_line_breaks(&tokens, &vec![2, 3], 72_000, false);
    assert_eq!(filled, tokens);
    assert_eq!(breaks, vec![2, 3]);
    let tokens = vec![word("aaaa"), TextToken::Space, word("aaaaa")];
    let (filled, breaks) = e.greedy_line_breaks(&tokens, &vec![2, 3], 48_000, false);
    assert_eq!(filled, tokens);
    assert_eq!(breaks, vec![2, 3]);
}

#[test]
fn chinese_paragraphs_split_no_word() {
    let e = engine();
    // each character is 13 pt wide
    let (tokens, breaks) = e.greedy_line_breaks(&two_words(), &vec![2, 3], 130_000, true);
    assert_eq!(tokens, two_words());
    assert_eq!(breaks, vec![2, 3]);
}

#[test]
fn the_lines_of_a_split_word() {
    let e = engine();
    let lines = e.compose_paragraph(&two_words(), 60_000, 16_800, false);
    assert_eq!(lines.len(), 2);
    assert_eq!(lines[0].tokens, vec![word("aaaa"), TextToken::Space, word("info")]);
    assert_eq!(lines[0].text, "aaaa info");
    assert_eq!(lines[0].width, 54_000);
    assert_eq!(lines[1].tokens, vec![word("rmation")]);
    assert_eq!(lines[1].text, "rmation");
    assert_eq!(lines[1].width, 42_000);
    assert_eq!(lines[1].baseline, 16_800);
}

#[test]
fn line_width_is_the_sum_of_token_widths() {
    let e = engine();
    let tokens = vec![
        word("Thus"),
        TextToken::Space,
        TextToken::Punctuation(','),
        TextToken::DiscretionaryHyphen,
        word("I"),
    ];
    assert_eq!(e.calculate_line_width(&tokens, false), 8 * 6_000);
    assert_eq!(e.calculate_line_width(&tokens, true), 8 * 13_000);
    assert_eq!(e.calculate_line_width(&Vec::new(), false), 0);
    assert_eq!(e.range_width(&tokens, 1, 3, false), 12_000);
    assert_eq!(e.token_width(&word("abc"), false), 18_000);
}

#[test]
fn kerning_and_tracking_stay_within_a_token() {
    let mut english = GlyphMetrics::new(6_000, 1000);
    english.set_kerning('a', 'b', -500);
    let ctx = FontContext::initialize_fonts(
        GlyphMetrics::new(13_000, 1000),
        "SimSun".to_string(),
        "simsun.ttc".to_string(),
        Vec::new(),
        english,
        "Times".to_string(),
        "times.ttf".to_string(),
        Vec::new(),
    );
    let e = TextLayoutEngine::new(ctx);
    // within the word: kerning -6 pt and tracking 0.096 pt
    assert_eq!(e.calculate_line_width(&vec![word("ab")], false), 12_000 - 6_000 + 96);
    // across two tokens: neither
    assert_eq!(e.calculate_line_width(&vec![word("a"), word("b")], false), 12_000);
}

#[test]
fn appending_a_token_never_narrows_a_line() {
    let e = engine();
    let mut tokens = Vec::new();
    let mut last = 0;
    for t in [
        word("Thus"),
        TextToken::Space,
        word(""),
        TextToken::Punctuation('.'),
        TextToken::DiscretionaryHyphen,
        word("heard"),
    ] {
        tokens.push(t);
        let w = e.calculate_line_width(&tokens, false);
        assert!(w >= last);
        last = w;
    }
    assert_eq!(last, 12 * 6_000);
}

#[test]
fn a_word_of_negative_width_narrows_a_line() {
    let mut english = GlyphMetrics::new(1_000, 1);
    english.set_kerning('a', 'b', -1);
    let mut ctx = FontContext::initialize_fonts(
        GlyphMetrics::new(13_000, 1000),
        "SimSun".to_string(),
        "simsun.ttc".to_string(),
        Vec::new(),
        english,
        "Times".to_string(),
        "times.ttf".to_string(),
        Vec::new(),
    );
    ctx.tracking_english = 0;
    let e = TextLayoutEngine::new(ctx);
    // kerning of one unit at one unit per em is a whole em of 12 pt
    assert_eq!(e.calculate_line_width(&vec![word("ab")], false), 2_000 - 12_000);
    assert!(
        e.calculate_line_width(&vec![word("x"), word("ab")], false)
            < e.calculate_line_width(&vec![word("x")], false)
    );
}

fn four_words() -> Vec<TextToken> {
    vec![
        word("aaaa"),
        TextToken::Space,
        word("bbbb"),
        TextToken::Space,
        word("cccc"),
        TextToken::Space,
        word("dddd"),
    ]
}

#[test]
fn greedy_fill_breaks_at_the_last_legal_break_that_fits() {
    let e = engine();
    let tokens = four_words();
    let breakpoints = e.find_breakpoints(&tokens, false);
    assert_eq!(breakpoints, vec![2, 4, 6, 7]);
    assert_eq!(e.greedy_line_breaks(&tokens, &breakpoints, 60_000, false).1, vec![4, 7]);
    assert_eq!(e.greedy_line_breaks(&tokens, &breakpoints, 59_999, false).1, vec![2, 4, 7]);
    assert_eq!(e.greedy_line_breaks(&tokens, &breakpoints, 53_999, false).1, vec![2, 4, 6, 7]);
    assert_eq!(e.greedy_line_breaks(&tokens, &breakpoints, 114_000, false).1, vec![7]);
    assert_eq!(e.greedy_line_breaks(&tokens, &breakpoints, 113_999, false).1, vec![6, 7]);
}

#[test]
fn greedy_fill_accepts_breakpoints_in_any_order() {
    let e = engine();
    let tokens = four_words();
    assert_eq!(e.greedy_line_breaks(&tokens, &vec![7, 9, 0, 4, 4, 2, 6], 60_000, false).1, vec![4, 7]);
    assert_eq!(e.greedy_line_breaks(&tokens, &vec![4], 60_000, false).1, vec![4, 7]);
}

#[test]
fn greedy_fill_breaks_before_the_overflow_without_a_legal_break() {
    let e = engine();
    let tokens = vec![word("aaaa"), word("bbbb"), word("cccc")];
    assert_eq!(e.greedy_line_breaks(&tokens, &vec![3], 50_000, false).1, vec![2, 3]);
    assert_eq!(e.greedy_line_breaks(&tokens, &Vec::new(), 50_000, false).1, vec![2, 3]);
}

#[test]
fn greedy_fill_forces_progress_on_a_token_that_is_too_wide() {
    let e = engine();
    assert_eq!(e.greedy_line_breaks(&vec![word("aaaa")], &vec![1], 10_000, false).1, vec![1]);
    let tokens = vec![word("aaaa"), TextToken::Space, word("bbbbbbbbbbbb"), TextToken::Space];
    assert_eq!(
        e.greedy_line_breaks(&tokens, &vec![2, 4], 30_000, false).1,
        vec![2, 3, 4]
    );
    assert_eq!(e.greedy_line_breaks(&tokens, &vec![2, 4], 0, false).1, vec![1, 2, 3, 4]);
}

#[test]
fn greedy_fill_of_nothing() {
    let e = engine();
    let (tokens, breaks) = e.greedy_line_breaks(&Vec::new(), &vec![0], 60_000, false);
    assert!(tokens.is_empty());
    assert!(breaks.is_empty());
}

#[test]
fn no_line_overflows_unless_it_holds_a_single_token() {
    let e = engine();
    let text = "The Buddha was staying in the Jeta Grove of Anathapindika's park in Sravasti, \
                together with a great assembly; all of them were great Arhats.";
    let tokens = e.tokenize_text(text, false);
    let breakpoints = e.find_breakpoints(&tokens, false);
    for max_width in [30_000, 60_000, 77_000, 120_000, 400_000] {
        let (filled, breaks) = e.greedy_line_breaks(&tokens, &breakpoints, max_width, false);
        assert_eq!(tokens_to_text(&filled), tokens_to_text(&tokens));
        assert_eq!(*breaks.last().unwrap(), filled.len());
        let mut start = 0;
        for b in breaks {
            assert!(b > start);
            let width = e.range_width(&filled, start, b, false);
            assert!(width <= max_width || b == start + 1);
            start = b;
        }
    }
}

fn adjustment(a: &SpaceAdjustment) -> (usize, i64, i64, i64) {
    (a.position, a.base_width, a.adjusted_width, a.adjustment_ratio)
}

#[test]
fn justification_spreads_the_slack_over_the_spaces() {
    let e = engine();
    let tokens = vec![word("aa"), TextToken::Space, word("bb"), TextToken::Space, word("cc")];
    let (out, adjustments) = e.justify_line(&tokens, 50_000, false);
    assert_eq!(out, tokens);
    assert_eq!(adjustments.len(), 2);
    assert_eq!(adjustment(&adjustments[0]), (2, 6_000, 7_000, 166));
    assert_eq!(adjustment(&adjustments[1]), (5, 6_000, 7_000, 166));
}

#[test]
fn justification_is_limited_to_half_a_space() {
    let e = engine();
    let tokens = vec![word("aaaa"), TextToken::Space, word("bbbb")];
    let (_, adjustments) = e.justify_line(&tokens, 60_000, false);
    assert_eq!(adjustments.len(), 1);
    assert_eq!(adjustment(&adjustments[0]), (4, 6_000, 9_000, 500));
    let (_, adjustments) = e.justify_line(&tokens, 20_000_000, false);
    assert_eq!(adjustment(&adjustments[0]), (4, 6_000, 9_000, 500));
    let (_, adjustments) = e.justify_line(&tokens, 55_000, false);
    assert_eq!(adjustment(&adjustments[0]), (4, 6_000, 7_000, 166));
}

#[test]
fn justification_needs_slack_and_a_space() {
    let e = engine();
    let tokens = vec![word("aaaa"), TextToken::Space, word("bbbb")];
    assert!(e.justify_line(&tokens, 54_000, false).1.is_empty());
    assert!(e.justify_line(&tokens, 20_000, false).1.is_empty());
    assert!(e.justify_line(&vec![word("aaaa")], 60_000, false).1.is_empty());
    assert!(e.justify_line(&Vec::new(), 60_000, false).1.is_empty());
}

#[test]
fn every_recorded_ratio_lies_within_a_half() {
    let e = engine();
    let tokens = e.tokenize_text("a bb ccc dddd eeeee, f g", false);
    for max_width in [1, 100_000, 150_000, 151_000, 160_000, 500_000, 10_000_000] {
        let (_, adjustments) = e.justify_line(&tokens, max_width, false);
        for a in &adjustments {
            assert!(-500 <= a.adjustment_ratio && a.adjustment_ratio <= 500);
            assert!((a.adjusted_width - a.base_width).abs() <= a.base_width / 2);
            assert_eq!(a.adjustment_ratio, (a.adjusted_width - a.base_width) * 1000 / a.base_width);
        }
    }
}

#[test]
fn a_space_of_no_width_is_not_stretched() {
    let mut english = GlyphMetrics::new(6_000, 1000);
    english.set_advance(' ', 0);
    let ctx = FontContext::initialize_fonts(
        GlyphMetrics::new(13_000, 1000),
        "SimSun".to_string(),
        "simsun.ttc".to_string(),
        Vec::new(),
        english,
        "Times".to_string(),
        "times.ttf".to_string(),
        Vec::new(),
    );
    let e = TextLayoutEngine::new(ctx);
    let tokens = vec![word("a"), TextToken::Space, word("b")];
    let (_, adjustments) = e.justify_line(&tokens, 60_000, false);
    assert_eq!(adjustment(&adjustments[0]), (1, 0, 0, 0));
}

#[test]
fn composed_lines() {
    let e = engine();
    let tokens = four_words();
    let lines = e.compose_paragraph(&tokens, 60_000, 16_800, false);
    assert_eq!(lines.len(), 2);
    assert_eq!(lines[0].text, "aaaa bbbb ");
    assert_eq!(lines[0].tokens, tokens[0..4].to_vec());
    assert_eq!(lines[0].width, 60_000);
    assert_eq!(lines[0].baseline, 0);
    assert_eq!((lines[0].x, lines[0].y, lines[0].height), (0, 0, 16_800));
    assert_eq!(lines[0].font_size, 12_000);
    assert!(!lines[0].is_chinese);
    assert!(!lines[0].is_justified);
    assert!(lines[0].space_adjustments.is_empty());
    assert!(!lines[0].hyphenated);
    assert_eq!(lines[1].text, "cccc dddd");
    assert_eq!(lines[1].width, 54_000);
    assert_eq!(lines[1].baseline, 16_800);
    assert!(lines[1].is_justified);
    assert_eq!(lines[1].space_adjustments.len(), 1);
    assert_eq!(adjustment(&lines[1].space_adjustments[0]), (4, 6_000, 9_000, 500));
}

#[test]
fn the_first_line_is_never_justified() {
    let e = engine();
    let lines = e.compose_paragraph(&vec![word("a"), TextToken::Space, word("b")], 60_000, 16_800, false);
    assert_eq!(lines.len(), 1);
    assert!(!lines[0].is_justified);
    assert!(lines[0].space_adjustments.is_empty());
}

#[test]
fn chinese_and_left_aligned_lines_are_not_justified() {
    let e = engine();
    let tokens = four_words();
    for line in e.compose_paragraph(&tokens, 60_000, 18_200, true) {
        assert!(!line.is_justified);
        assert!(line.is_chinese);
        assert_eq!(line.font_size, 13_000);
    }
    let mut ctx = plain_context();
    ctx.justification = Justification::Left;
    let e = TextLayoutEngine::new(ctx);
    for line in e.compose_paragraph(&tokens, 60_000, 16_800, false) {
        assert!(!line.is_justified);
    }
}

#[test]
fn composed_lines_record_a_hyphen_at_their_end() {
    let e = engine();
    let tokens = vec![word("aaaa"), TextToken::DiscretionaryHyphen, word("bbbb"), TextToken::Space];
    let lines = e.compose_paragraph(&tokens, 40_000, 16_800, false);
    assert_eq!(lines.len(), 2);
    assert_eq!(lines[0].text, "aaaa-");
    assert!(lines[0].hyphenated);
    assert_eq!(lines[1].text, "bbbb ");
    assert!(!lines[1].hyphenated);
    assert!(e.compose_paragraph(&Vec::new(), 40_000, 16_800, false).is_empty());
}

#[test]
fn runs_that_move_with_a_word() {
    let w = word("w");
    let s = TextToken::Space;
    let p = TextToken::Punctuation('.');
    assert_eq!(leading_run_len(&vec![w.clone(), s.clone(), w.clone()]), 1);
    assert_eq!(leading_run_len(&vec![s.clone(), s.clone(), w.clone(), w.clone()]), 3);
    assert_eq!(leading_run_len(&vec![s.clone(), p.clone(), w.clone()]), 1);
    assert_eq!(leading_run_len(&vec![p.clone(), w.clone()]), 0);
    assert_eq!(leading_run_len(&vec![s.clone(), s.clone()]), 2);
    assert_eq!(leading_run_len(&Vec::new()), 0);
    assert_eq!(trailing_run_len(&vec![w.clone(), s.clone(), w.clone()]), 1);
    assert_eq!(trailing_run_len(&vec![w.clone(), w.clone(), s.clone(), s.clone()]), 3);
    assert_eq!(trailing_run_len(&vec![w.clone(), p.clone(), s.clone()]), 1);
    assert_eq!(trailing_run_len(&vec![w.clone(), p.clone()]), 0);
    assert_eq!(trailing_run_len(&Vec::new()), 0);
}

#[test]
fn pulling_a_word_up() {
    let e = engine();
    let mut lines = vec![words_line(&e, &["a", "b"]), words_line(&e, &["c", "d"])];
    e.try_pull_word_from_next_line(&mut lines, 0, 30_000, false);
    assert_eq!(lines[0].text, "a b c");
    assert_eq!(lines[0].width, 30_000);
    assert_eq!(lines[0].tokens.len(), 5);
    assert_eq!(lines[1].text, " d ");
    assert_eq!(lines[1].width, 18_000);
    // the next pull takes the space and the word after it
    e.try_pull_word_from_next_line(&mut lines, 0, 42_000, false);
    assert_eq!(lines[0].text, "a b c d");
    assert_eq!(lines[0].width, 42_000);
    assert_eq!(lines[1].text, " ");
    assert_eq!(lines[1].width, 6_000);
}

#[test]
fn a_word_that_does_not_fit_stays() {
    let e = engine();
    let mut lines = vec![words_line(&e, &["a", "b"]), words_line(&e, &["c", "d"])];
    e.try_pull_word_from_next_line(&mut lines, 0, 29_999, false);
    assert_eq!(lines[0].text, "a b ");
    assert_eq!(lines[1].text, "c d ");
    e.try_push_word_to_next_line(&mut lines, 0, 35_999, false);
    assert_eq!(lines[0].text, "a b ");
    assert_eq!(lines[1].text, "c d ");
    e.try_pull_word_from_next_line(&mut lines, 1, 100_000, false);
    e.try_push_word_to_next_line(&mut lines, 1, 100_000, false);
    e.try_pull_word_from_previous_line(&mut lines, 0, 100_000, false);
    e.try_pull_word_from_next_line(&mut lines, 7, 100_000, false);
    assert_eq!(lines[0].text, "a b ");
    assert_eq!(lines[1].text, "c d ");
}

#[test]
fn pushing_a_word_down() {
    let e = engine();
    let mut lines = vec![words_line(&e, &["a", "b"]), words_line(&e, &["c", "d"])];
    e.try_push_word_to_next_line(&mut lines, 0, 36_000, false);
    assert_eq!(lines[0].text, "a ");
    assert_eq!(lines[0].width, 12_000);
    assert_eq!(lines[1].text, "b c d ");
    assert_eq!(lines[1].width, 36_000);
    assert_eq!(lines[1].tokens.len(), 6);
}

#[test]
fn pulling_from_the_line_before() {
    let e = engine();
    let mut lines = vec![words_line(&e, &["a", "b"]), words_line(&e, &["c"])];
    e.try_pull_word_from_previous_line(&mut lines, 1, 30_000, false);
    assert_eq!(lines[0].text, "a b c");
    assert_eq!(lines[1].text, " ");
}

#[test]
fn only_spaces_move_where_no_word_follows_them() {
    let e = engine();
    let mut lines = vec![
        line_of(vec![word("a"), TextToken::Punctuation('.'), TextToken::Space], 18_000),
        line_of(vec![TextToken::Space, TextToken::Punctuation('('), word("b")], 18_000),
    ];
    e.try_push_word_to_next_line(&mut lines, 0, 100_000, false);
    assert_eq!(lines[0].text, "a.");
    assert_eq!(lines[0].width, 12_000);
    assert_eq!(lines[1].text, "  (b");
    assert_eq!(lines[1].width, 24_000);
    e.try_pull_word_from_next_line(&mut lines, 0, 100_000, false);
    assert_eq!(lines[0].text, "a.  ");
    assert_eq!(lines[1].text, "(b");
    e.try_pull_word_from_next_line(&mut lines, 0, 100_000, false);
    assert_eq!(lines[0].text, "a.  ");
    assert_eq!(lines[1].text, "(b");
}

fn widths(lines: &Vec<FormattedLine>) -> Vec<i64> {
    lines.iter().map(|l| l.width).collect()
}

fn lines_of_widths(ws: &[i64]) -> Vec<FormattedLine> {
    ws.iter().map(|w| line_of(vec![word("x")], *w)).collect()
}

#[test]
fn rag_smoothing_nudges_the_middle_of_a_strict_run() {
    let e = engine();
    let mut lines = lines_of_widths(&[100_000, 90_000, 50_000]);
    e.adjust_rag(&mut lines);
    assert_eq!(widths(&lines), vec![100_000, 85_500, 50_000]);
    let mut lines = lines_of_widths(&[50_000, 60_000, 100_000]);
    e.adjust_rag(&mut lines);
    assert_eq!(widths(&lines), vec![50_000, 63_000, 100_000]);
    let mut lines = lines_of_widths(&[100_000, 81_000, 60_000]);
    e.adjust_rag(&mut lines);
    assert_eq!(widths(&lines), vec![100_000, 80_000, 60_000]);
}

#[test]
fn rag_smoothing_leaves_peaks_valleys_and_plateaus() {
    let e = engine();
    for ws in [
        vec![50_000, 90_000, 60_000],
        vec![90_000, 50_000, 60_000],
        vec![50_000, 50_000, 60_000],
        vec![50_000, 60_000, 60_000],
        vec![50_000, 60_000],
        vec![50_000],
        vec![],
    ] {
        let mut lines = lines_of_widths(&ws);
        e.adjust_rag(&mut lines);
        assert_eq!(widths(&lines), ws);
    }
}

#[test]
fn rag_smoothing_sees_the_widths_it_left_behind() {
    let e = engine();
    let mut lines = lines_of_widths(&[100_000, 90_000, 50_000, 10_000]);
    e.adjust_rag(&mut lines);
    assert_eq!(widths(&lines), vec![100_000, 85_500, 47_750, 10_000]);
    assert_eq!(lines[1].text, "x");
    assert_eq!(lines[1].tokens, vec![word("x")]);
}

fn letters(n: usize, end: &str) -> String {
    let mut s = String::new();
    for i in 0..n {
        if i > 0 {
            s.push(' ');
        }
        s.push((b'a' + (i % 26) as u8) as char);
    }
    s.push_str(end);
    s
}

#[test]
fn a_widow_is_merged_into_the_line_before_where_it_fits() {
    let e = engine();
    // six words fill a line; the seventh fits, but not with the period
    let p = e.layout_paragraph(&letters(19, "."), 0, 0, 78_000, false).unwrap();
    assert_eq!(p.lines.len(), 4);
    assert_eq!(p.lines[0].text, "a b c d e f ");
    assert_eq!(p.lines[1].text, "g h i j k l ");
    assert_eq!(p.lines[2].text, "m n o p q r s");
    assert_eq!(p.lines[2].width, 78_000);
    assert_eq!(p.lines[3].text, ".");
    assert_eq!(p.lines[3].width, 6_000);
    assert_eq!(p.lines[3].word_count(), 0);
}

#[test]
fn a_widow_stays_where_merging_would_overflow() {
    let e = engine();
    let p = e.layout_paragraph(&letters(22, ""), 0, 0, 84_000, false).unwrap();
    assert_eq!(p.lines.len(), 4);
    assert_eq!(p.lines[0].text, "a b c d e f g ");
    assert_eq!(p.lines[1].text, "h i j k l m n ");
    assert_eq!(p.lines[2].text, "o p q r s t u ");
    assert_eq!(p.lines[2].width, 84_000);
    assert_eq!(p.lines[3].text, "v");
    assert_eq!(p.lines[3].word_count(), 1);
}

#[test]
fn an_orphan_is_pushed_to_the_second_line() {
    let e = engine();
    let mut lines = vec![
        words_line(&e, &["a"]),
        words_line(&e, &["b", "c", "d", "e", "f"]),
        words_line(&e, &["g", "h", "i", "j", "k"]),
    ];
    e.post_process_lines(&mut lines, 100_000, false);
    // the orphan goes down; the density rule then finds nothing to move from the empty line
    assert_eq!(lines[0].text, "");
    assert_eq!(lines[0].width, 0);
    assert_eq!(lines[1].text, "a b c d e f ");
    assert_eq!(lines[2].text, "g h i j k ");
}

#[test]
fn short_lines_hand_their_last_word_down() {
    let e = engine();
    let mut lines = vec![
        words_line(&e, &["a", "b", "c"]),
        words_line(&e, &["d", "e", "f", "g", "h"]),
        words_line(&e, &["i", "j"]),
    ];
    e.post_process_lines(&mut lines, 100_000, false);
    assert_eq!(lines[0].text, "a b ");
    assert_eq!(lines[1].text, "c d e f g h ");
    assert_eq!(lines[2].text, "i j ");
}

#[test]
fn long_lines_take_a_word_from_the_next_line() {
    let e = engine();
    let sixteen = ["a", "b", "c", "d", "e", "f", "g", "h", "i", "j", "k", "l", "m", "n", "o", "p"];
    let mut lines = vec![
        words_line(&e, &sixteen),
        words_line(&e, &["q", "r", "s", "t", "u", "v"]),
    ];
    e.post_process_lines(&mut lines, 1_000_000, false);
    assert_eq!(lines[0].word_count(), 17);
    assert_eq!(lines[0].text, "a b c d e f g h i j k l m n o p q");
    assert_eq!(lines[1].text, " r s t u v ");
}

#[test]
fn stacked_hyphens_pull_a_word_up() {
    let e = engine();
    let hyphen = TextToken::DiscretionaryHyphen;
    let five = |last: &str| {
        let mut tokens = Vec::new();
        for w in ["a", "b", "c", "d"] {
            tokens.push(word(w));
            tokens.push(TextToken::Space);
        }
        tokens.push(word(last));
        tokens.push(hyphen.clone());
        let width = e.calculate_line_width(&tokens, false);
        line_of(tokens, width)
    };
    let mut lines = vec![five("ee"), five("ff"), words_line(&e, &["g", "h", "i", "j", "k"])];
    e.post_process_lines(&mut lines, 1_000_000, false);
    assert_eq!(lines[0].text, "a b c d ee-a");
    assert_eq!(lines[0].width, 12 * 6_000);
    assert_eq!(lines[1].text, " b c d ff-");
    assert_eq!(lines[2].text, "g h i j k ");
}

#[test]
fn chinese_lines_are_not_tidied() {
    let e = engine();
    let hyphen = TextToken::DiscretionaryHyphen;
    let mut lines = vec![
        line_of(vec![word("佛"), hyphen.clone()], 26_000),
        line_of(vec![word("說"), hyphen.clone()], 26_000),
        line_of(vec![word("經")], 13_000),
    ];
    e.post_process_lines(&mut lines, 1_000_000, true);
    assert_eq!(lines[0].text, "佛-");
    assert_eq!(lines[1].text, "說-");
    assert_eq!(lines[2].text, "經");
    assert_eq!(widths(&lines), vec![26_000, 26_000, 13_000]);
    assert_eq!(lines[0].tokens.len(), 2);
}

#[test]
fn a_single_line_is_not_tidied() {
    let mut ctx = plain_context();
    ctx.justification = Justification::Left;
    let e = TextLayoutEngine::new(ctx);
    let mut lines = vec![words_line(&e, &["a"])];
    e.post_process_lines(&mut lines, 1_000_000, false);
    assert_eq!(lines[0].text, "a ");
    assert_eq!(lines[0].width, 12_000);
    let mut none: Vec<FormattedLine> = Vec::new();
    e.post_process_lines(&mut none, 1_000_000, false);
    assert!(none.is_empty());
}

#[test]
fn chinese_lines_get_no_widow_control() {
    let e = engine();
    let mut lines = vec![
        line_of(vec![word("佛"), word("說")], 26_000),
        line_of(vec![word("經")], 13_000),
    ];
    e.post_process_lines(&mut lines, 1_000_000, true);
    assert_eq!(lines[0].text, "佛說");
    assert_eq!(lines[1].text, "經");
    assert_eq!(widths(&lines), vec![26_000, 13_000]);
}

#[test]
fn left_aligned_latin_lines_get_rag_smoothing() {
    let mut ctx = plain_context();
    ctx.justification = Justification::Left;
    let e = TextLayoutEngine::new(ctx);
    let mut lines = vec![
        words_line(&e, &["a", "b", "c", "d", "e", "f", "g"]),
        words_line(&e, &["a", "b", "c", "d", "e", "f"]),
        words_line(&e, &["a", "b", "c", "d", "e"]),
    ];
    e.post_process_lines(&mut lines, 84_000, false);
    // 84, 72 and 60 pt: the middle line already lies on the mean
    assert_eq!(widths(&lines), vec![84_000, 72_000, 60_000]);
    let mut lines = vec![
        words_line(&e, &["a", "b", "c", "d", "e", "f", "g", "h", "i", "j"]),
        words_line(&e, &["a", "b", "c", "d", "e", "f", "g", "h", "i"]),
        words_line(&e, &["a", "b", "c", "d", "e"]),
    ];
    e.post_process_lines(&mut lines, 120_000, false);
    // 120, 108 and 60 pt: the mean is 90, the nudge at most 5.4
    assert_eq!(widths(&lines), vec![120_000, 102_600, 60_000]);
    assert_eq!(lines[1].text, "a b c d e f g h i ");
}

#[test]
fn layout_of_a_chinese_paragraph() {
    let e = engine();
    let p = e.layout_paragraph("佛說阿彌陀經", 82_000, 90_000, 431_000, true).unwrap();
    assert_eq!((p.x, p.y, p.width), (82_000, 90_000, 431_000));
    assert!(p.is_chinese);
    assert_eq!(p.font_size, 13_000);
    assert_eq!(p.line_spacing, 1400);
    assert_eq!(p.leading, 18_200);
    assert_eq!(p.height, 18_200);
    assert_eq!(p.lines.len(), 1);
    assert_eq!(p.lines[0].text, "佛說阿彌陀經");
    assert_eq!(p.lines[0].width, 78_000);
    assert_eq!(p.lines[0].tokens.len(), 6);
    assert_eq!(p.lines[0].height, 18_200);
}

#[test]
fn chinese_text_wraps_at_any_character() {
    let e = engine();
    let p = e.layout_paragraph("一二三四五六七", 0, 0, 40_000, true).unwrap();
    let texts: Vec<&str> = p.lines.iter().map(|l| l.text.as_str()).collect();
    assert_eq!(texts, vec!["一二三", "四五六", "七"]);
    let baselines: Vec<i64> = p.lines.iter().map(|l| l.baseline).collect();
    assert_eq!(baselines, vec![0, 18_200, 36_400]);
    assert_eq!(p.height, 3 * 18_200);
}

#[test]
fn leading_is_at_least_four_points_more_than_the_size() {
    let mut ctx = plain_context();
    ctx.line_spacing = 1000;
    let e = TextLayoutEngine::new(ctx);
    let p = e.layout_paragraph("a", 0, 0, 100_000, false).unwrap();
    assert_eq!(p.leading, 16_000);
    assert_eq!(p.height, 16_000);
    assert_eq!(p.lines[0].height, 16_000);
    let p = e.layout_paragraph("佛", 0, 0, 100_000, true).unwrap();
    assert_eq!(p.leading, 17_000);
}

#[test]
fn a_paragraph_without_text_is_one_leading_high() {
    let e = engine();
    let p = e.layout_paragraph("", 5, 7, 100_000, false).unwrap();
    assert!(p.lines.is_empty());
    assert_eq!(p.height, 16_800);
    assert_eq!(p.leading, 16_800);
}

#[test]
fn layout_normalizes_before_it_splits() {
    let e = engine();
    let p = e.layout_paragraph("\"So...\" he said--twice.", 0, 0, 400_000, false).unwrap();
    assert_eq!(p.lines.len(), 1);
    assert_eq!(p.lines[0].text, "\u{201C}So\u{2026}\u{201D} he said\u{2014}twice.");
    assert_eq!(
        p.lines[0].tokens,
        vec![
            word("\u{201C}So\u{2026}\u{201D}"),
            TextToken::Space,
            word("he"),
            TextToken::Space,
            word("said\u{2014}twice"),
            TextToken::Punctuation('.'),
        ]
    );
}

#[test]
fn every_line_shows_the_text_of_its_tokens() {
    let text = "Thus have I heard. At one time the Buddha was staying in the Jeta Grove of \
                Anathapindika's park in Sravasti, together with a great assembly of twelve \
                hundred and fifty monks -- all of whom were great Arhats...";
    for justification in [Justification::Left, Justification::Justify] {
        let mut ctx = plain_context();
        ctx.justification = justification;
        let e = TextLayoutEngine::new(ctx);
        for max_width in [50_000, 120_000, 200_000, 431_000] {
            let p = e.layout_paragraph(text, 0, 0, max_width, false).unwrap();
            assert!(p.lines.len() > 1);
            for line in &p.lines {
                assert_eq!(line.tokens_to_string(), line.text);
            }
            let all: String = p.lines.iter().map(|l| l.text.as_str()).collect();
            assert_eq!(all, e.normalize_punctuation(text));
        }
    }
}

#[test]
fn layout_refuses_invalid_geometry() {
    let e = engine();
    assert_eq!(e.layout_paragraph("a", 0, 0, 0, false).err(), Some(LayoutError::InvalidGeometry));
    assert_eq!(e.layout_paragraph("a", 0, 0, -5, true).err(), Some(LayoutError::InvalidGeometry));
    assert_eq!(
        e.layout_paragraph("a", 0, 0, 20_000_001, false).err(),
        Some(LayoutError::InvalidGeometry)
    );
    assert_eq!(
        e.layout_paragraph("a", 0, 4_000_000_000_000_000_001, 100_000, false).err(),
        Some(LayoutError::InvalidGeometry)
    );
    assert!(e.layout_paragraph("a", 0, 4_000_000_000_000_000_000, 20_000_000, false).is_ok());
    let mut ctx = plain_context();
    ctx.font_size_chinese = 0;
    let e = create_layout_engine(ctx);
    assert_eq!(
        e.layout_paragraph("a", 0, 0, 100_000, false).err(),
        Some(LayoutError::InvalidGeometry)
    );
}

#[test]
fn layout_refuses_a_text_that_is_too_long() {
    let e = engine();
    let long = "a".repeat(1_000_001);
    assert_eq!(
        e.layout_paragraph(&long, 0, 0, 100_000, false).err(),
        Some(LayoutError::TextTooLong)
    );
    assert_eq!(
        e.layout_paragraph(&long, 0, 0, 0, false).err(),
        Some(LayoutError::InvalidGeometry)
    );
}

#[test]
fn script_detection() {
    let e = engine();
    assert!(e.detect_script("佛說阿彌陀經"));
    assert!(e.detect_script("The 經 Sutra"));
    assert!(e.detect_script("ひらがな"));
    assert!(e.detect_script("カタカナ"));
    assert!(e.detect_script("ㄅㄆㄇ"));
    assert!(!e.detect_script("The Amitabha Sutra"));
    assert!(!e.detect_script("한국어 Ελληνικά"));
    assert!(!e.detect_script("。，"));
    assert!(!e.detect_script(""));
}

#[test]
fn the_directional_pass_hands_the_text_on() {
    let e = engine();
    assert_eq!(e.process_bidi_text("abc אבג def"), "abc אבג def");
    assert_eq!(e.process_bidi_text(""), "");
    assert_eq!(e.process_bidi_text("佛\u{202E}說\n\u{2067}x"), "佛\u{202E}說\n\u{2067}x");
}

#[test]
fn unbroken_paragraph_ends_at_the_last_breakpoint() {
    let e = engine();
    assert_eq!(e.optimize_line_breaks(&vec![2, 4, 7]), vec![7]);
    assert!(e.optimize_line_breaks(&Vec::new()).is_empty());
}

#[test]
fn chinese_text_splits_after_punctuation() {
    let e = engine();
    assert_eq!(e.split_chinese_text("如是我聞。一時佛在，舍衛國"), vec!["如是我聞。", "一時佛在，", "舍衛國"]);
    assert_eq!(e.split_chinese_text("如是。我聞。"), vec!["如是。", "我聞。"]);
    assert_eq!(e.split_chinese_text("如是我聞。"), vec!["如是我聞。"]);
    assert!(e.split_chinese_text("").is_empty());
    let long = "一二三四五六七八九十一二三四五六七八九十一二三";
    assert_eq!(e.split_chinese_text(long), vec!["一二三四五六七八九十一二三四五六七八九十", "一二三"]);
}

#[test]
fn text_splits_by_length() {
    let e = engine();
    assert_eq!(e.split_chinese_by_length("一二三四五", 2), vec!["一二", "三四", "五"]);
    assert_eq!(e.split_chinese_by_length("一二三四", 2), vec!["一二", "三四"]);
    assert_eq!(e.split_chinese_by_length("一二", 5), vec!["一二"]);
    assert!(e.split_chinese_by_length("", 3).is_empty());
}

#[test]
fn long_words_break_into_pieces_that_fit() {
    let ctx = plain_context();
    assert_eq!(
        TextLayoutEngine::break_long_word_static("abcdefgh", 18_000, &ctx),
        vec!["abc", "def", "gh"]
    );
    assert_eq!(
        TextLayoutEngine::break_long_word_static("abc", 5_000, &ctx),
        vec!["a", "b", "c"]
    );
    assert_eq!(TextLayoutEngine::break_long_word_static("abc", 18_000, &ctx), vec!["abc"]);
    assert!(TextLayoutEngine::break_long_word_static("", 18_000, &ctx).is_empty());
    let e = engine();
    assert_eq!(e.break_long_word("abcdefgh", 18_000), vec!["abcdefgh"]);
}

#[test]
fn split_points_of_given_characters() {
    let points = |w: &str, upper: bool| hyphenation_points_of(&w.chars().collect(), upper);
    assert_eq!(points("information", false), Some(vec![4, 7]));
    assert_eq!(points("information", true), None);
    assert_eq!(points("Information", false), Some(vec![4, 7]));
    assert_eq!(points("short", false), None);
    assert_eq!(points("", false), None);
    assert_eq!(points("banana", false), None);
    assert_eq!(points("beautiful", false), Some(vec![3, 4]));
}

#[test]
fn a_page_of_the_largest_size_is_laid_out() {
    let mut ctx = plain_context();
    // 14400 pt is the largest page of the format
    ctx.set_options(14_400_000, 14_400_000, 72_000, 13_000, 12_000, 1400, 0, 0, 600);
    assert!(ctx.is_valid());
    let e = TextLayoutEngine::new(ctx);
    let p = e.layout_paragraph("a b", 0, 0, 14_236_000, false).unwrap();
    assert_eq!(p.lines.len(), 1);
    assert_eq!(p.width, 14_236_000);
}
