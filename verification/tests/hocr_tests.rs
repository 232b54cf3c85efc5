use cbeta_pdf_creator::hocr_layer::{
    create_hocr_generator, merge_boxes, push_decimal, push_thousandths, split_words, BoundingBox,
    HocrError, HocrGenerator, HocrLine, HocrPage, HocrParagraph, HocrWord,
};
use cbeta_pdf_creator::typography::{FormattedLine, FormattedParagraph, TextToken};

fn rect(x0: i64, y0: i64, x1: i64, y1: i64) -> BoundingBox {
    BoundingBox { x0, y0, x1, y1 }
}

fn decimal(n: u64) -> String {
    let mut out = Vec::new();
    push_decimal(&mut out, n);
    out.into_iter().collect()
}

fn thousandths(v: i64) -> String {
    let mut out = vec!['='];
    push_thousandths(&mut out, v);
    out.into_iter().skip(1).collect()
}

#[test]
fn decimal_digits() {
    assert_eq!(decimal(0), "0");
    assert_eq!(decimal(7), "7");
    assert_eq!(decimal(10), "10");
    assert_eq!(decimal(4_294_967_295), "4294967295");
    assert_eq!(decimal(u64::MAX), "18446744073709551615");
}

#[test]
fn thousandths_as_decimal_numbers() {
    assert_eq!(thousandths(0), "0");
    assert_eq!(thousandths(82_000), "82");
    assert_eq!(thousandths(82_500), "82.5");
    assert_eq!(thousandths(82_050), "82.05");
    assert_eq!(thousandths(82_005), "82.005");
    assert_eq!(thousandths(82_120), "82.12");
    assert_eq!(thousandths(950), "0.95");
    assert_eq!(thousandths(1), "0.001");
    assert_eq!(thousandths(-1_500), "-1.5");
    assert_eq!(thousandths(-7), "-0.007");
    assert_eq!(thousandths(i64::MAX), "9223372036854775.807");
    assert_eq!(thousandths(i64::MIN), "-9223372036854775.808");
}

#[test]
fn boxes_merge_to_the_box_around_both() {
    assert_eq!(merge_boxes(rect(0, 0, 10, 10), rect(5, -5, 20, 8)), rect(0, -5, 20, 10));
    assert_eq!(merge_boxes(rect(3, 3, 4, 4), rect(3, 3, 4, 4)), rect(3, 3, 4, 4));
}

#[test]
fn words_are_what_white_space_separates() {
    let words = |s: &str| -> Vec<String> {
        split_words(s).into_iter().map(|w| w.into_iter().collect()).collect()
    };
    assert_eq!(words("Thus have  I\theard."), vec!["Thus", "have", "I", "heard."]);
    assert_eq!(words("  a  "), vec!["a"]);
    assert_eq!(words("a\u{3000}b"), vec!["a", "b"]);
    assert!(words("").is_empty());
    assert!(words(" \n ").is_empty());
}

fn line(text: &str, is_chinese: bool, x: i64, y: i64) -> FormattedLine {
    FormattedLine {
        text: text.to_string(),
        x,
        y,
        width: 0,
        height: 20_000,
        is_chinese,
        font_size: 10_000,
        baseline: 0,
        tokens: vec![TextToken::Word(text.to_string())],
        space_adjustments: Vec::new(),
        is_justified: false,
        hyphenated: false,
    }
}

fn paragraph(lines: Vec<FormattedLine>, is_chinese: bool) -> FormattedParagraph {
    FormattedParagraph {
        lines,
        x: 0,
        y: 0,
        width: 400_000,
        height: 20_000,
        is_chinese,
        font_size: 10_000,
        line_spacing: 1400,
        leading: 20_000,
    }
}

fn word(id: &str, bbox: BoundingBox, text: &str) -> HocrWord {
    HocrWord { id: id.to_string(), bbox, text: text.to_string(), confidence: 950 }
}

#[test]
fn every_chinese_character_is_a_word() {
    let mut g = HocrGenerator::new();
    g.word_counter = 9;
    let words = g.extract_words_from_line(&line("佛說", true, 1_000, 2_000)).unwrap();
    // a character is taken as eight tenths of the line height wide
    assert_eq!(
        words,
        vec![
            word("word_10", rect(1_000, 2_000, 17_000, 22_000), "佛"),
            word("word_11", rect(17_000, 2_000, 33_000, 22_000), "說"),
        ]
    );
    assert_eq!(g.word_counter, 11);
    assert_eq!((g.page_counter, g.paragraph_counter, g.line_counter), (0, 0, 0));
}

#[test]
fn latin_words_are_estimated_by_their_bytes() {
    let mut g = HocrGenerator::new();
    let words = g.extract_words_from_line(&line("Thus  é I", false, 1_000, 2_000)).unwrap();
    // six tenths of the size for each byte, three tenths between words
    assert_eq!(
        words,
        vec![
            word("word_1", rect(1_000, 2_000, 25_000, 22_000), "Thus"),
            word("word_2", rect(28_000, 2_000, 40_000, 22_000), "é"),
            word("word_3", rect(43_000, 2_000, 49_000, 22_000), "I"),
        ]
    );
    assert_eq!(g.word_counter, 3);
    assert!(g.extract_words_from_line(&line("  ", false, 0, 0)).unwrap().is_empty());
    assert_eq!(g.word_counter, 3);
}

#[test]
fn a_counter_without_numbers_left_stops_the_layer() {
    let mut g = HocrGenerator::new();
    g.word_counter = u32::MAX - 1;
    assert_eq!(
        g.extract_words_from_line(&line("佛說", true, 0, 0)),
        Err(HocrError::CounterExhausted)
    );
    assert_eq!(g.word_counter, u32::MAX - 1);
    assert_eq!(g.extract_words_from_line(&line("佛", true, 0, 0)).unwrap().len(), 1);
    assert_eq!(g.word_counter, u32::MAX);
    let mut g = HocrGenerator::new();
    g.line_counter = u32::MAX;
    assert_eq!(g.convert_line(&line("a", false, 0, 0), 0, 0), Err(HocrError::CounterExhausted));
    assert_eq!(g.word_counter, 0);
    let mut g = HocrGenerator::new();
    g.paragraph_counter = u32::MAX;
    assert_eq!(
        g.convert_paragraph(&paragraph(Vec::new(), false), 0),
        Err(HocrError::CounterExhausted)
    );
    let mut g = HocrGenerator::new();
    g.page_counter = u32::MAX;
    assert_eq!(g.generate_hocr(&Vec::new()), Err(HocrError::CounterExhausted));
}

#[test]
fn a_line_is_named_by_its_place() {
    let mut g = HocrGenerator::new();
    let l = g.convert_line(&line("a bb", false, 0, 5_000), 3, 12).unwrap();
    assert_eq!(l.id, "line_3_12");
    assert_eq!(l.words.len(), 2);
    assert_eq!(l.bbox, rect(0, 5_000, 21_000, 25_000));
    assert_eq!(g.line_counter, 1);
    let empty = g.convert_line(&line("", false, 9_000, 5_000), 0, 0).unwrap();
    assert_eq!(empty.bbox, rect(0, 0, 0, 0));
    assert!(empty.words.is_empty());
    assert_eq!(g.line_counter, 2);
}

#[test]
fn a_page_of_the_text_layer() {
    let mut g = create_hocr_generator();
    let paragraphs = vec![
        paragraph(vec![line("佛", true, 0, 0), line("說經", true, 0, 18_200)], true),
        paragraph(vec![line("Thus", false, 50_000, 40_000)], false),
    ];
    let page = g.generate_hocr(&paragraphs).unwrap();
    assert_eq!(page.page_number, 1);
    assert_eq!(page.paragraphs.len(), 2);
    let zh = &page.paragraphs[0];
    assert_eq!((zh.id.as_str(), zh.language.as_str()), ("para_1", "zh"));
    assert_eq!(zh.lines.len(), 2);
    assert_eq!(zh.lines[0].id, "line_0_0");
    assert_eq!(zh.lines[1].id, "line_0_1");
    assert_eq!(zh.lines[1].words[1].id, "word_3");
    assert_eq!(zh.lines[1].words[1].bbox, rect(16_000, 18_200, 32_000, 38_200));
    assert_eq!(zh.bbox, rect(0, 0, 32_000, 38_200));
    let en = &page.paragraphs[1];
    assert_eq!((en.id.as_str(), en.language.as_str()), ("para_2", "en"));
    assert_eq!(en.lines[0].id, "line_1_0");
    assert_eq!(en.lines[0].words[0].id, "word_4");
    assert_eq!(en.bbox, rect(50_000, 40_000, 74_000, 60_000));
    assert_eq!(page.bbox, rect(0, 0, 74_000, 60_000));
    assert_eq!(
        (g.page_counter, g.paragraph_counter, g.line_counter, g.word_counter),
        (1, 2, 3, 4)
    );
    let next = g.generate_hocr(&Vec::new()).unwrap();
    assert_eq!(next.page_number, 2);
    assert_eq!(next.bbox, rect(0, 0, 0, 0));
    assert!(next.paragraphs.is_empty());
}

#[test]
fn boxes_around_elements() {
    let g = HocrGenerator::new();
    let words = vec![
        word("a", rect(5, 6, 7, 8), "a"),
        word("b", rect(1, 9, 3, 10), "b"),
        word("c", rect(4, 2, 9, 3), "c"),
    ];
    assert_eq!(g.calculate_line_bbox(&words), rect(1, 2, 9, 10));
    assert_eq!(g.calculate_line_bbox(&Vec::new()), rect(0, 0, 0, 0));
    assert_eq!(g.calculate_line_bbox(&words[..1].to_vec()), rect(5, 6, 7, 8));
    let lines = vec![
        HocrLine { id: "l".to_string(), bbox: rect(5, 5, 6, 6), words: Vec::new() },
        HocrLine { id: "m".to_string(), bbox: rect(-5, 7, 1, 9), words: Vec::new() },
    ];
    assert_eq!(g.calculate_paragraph_bbox(&lines), rect(-5, 5, 6, 9));
    let paragraphs = vec![HocrParagraph {
        id: "p".to_string(),
        bbox: rect(1, 2, 3, 4),
        language: "en".to_string(),
        lines,
    }];
    assert_eq!(g.calculate_page_bbox(&paragraphs), rect(1, 2, 3, 4));
    assert_eq!(g.calculate_page_bbox(&Vec::new()), rect(0, 0, 0, 0));
}

#[test]
fn markup_of_the_text_layer() {
    let g = HocrGenerator::new();
    let w = word("word_1", rect(82_000, 82_500, 100_000, 98_800), "Thus");
    assert_eq!(
        g.generate_word_html(&w),
        "<span class='ocrx_word' id='word_1' title='bbox 82 82.5 100 98.8; 0.95'>Thus</span>"
    );
    let l = HocrLine { id: "line_0_0".to_string(), bbox: rect(82_000, 82_500, 100_000, 98_800), words: vec![w.clone(), w] };
    assert_eq!(
        g.generate_line_html(&l),
        "    <span class='ocr_line' id='line_0_0' title='bbox 82 82.5 100 98.8'>\
         <span class='ocrx_word' id='word_1' title='bbox 82 82.5 100 98.8; 0.95'>Thus</span>\
         <span class='ocrx_word' id='word_1' title='bbox 82 82.5 100 98.8; 0.95'>Thus</span>\
         </span>\n"
    );
    let p = HocrParagraph {
        id: "para_1".to_string(),
        bbox: rect(0, 0, 1, 1),
        language: "en".to_string(),
        lines: Vec::new(),
    };
    assert_eq!(
        g.generate_paragraph_html(&p),
        "  <div class='ocr_par' id='para_1' title='bbox 0 0 0.001 0.001; lang en'>\n  </div>\n"
    );
    let page = HocrPage { page_number: 3, bbox: rect(0, 0, 0, 0), paragraphs: vec![p] };
    assert_eq!(
        g.generate_page_html(&page),
        "<div class='ocr_page' id='page_3' title='bbox 0 0 0 0'>\n  \
         <div class='ocr_par' id='para_1' title='bbox 0 0 0.001 0.001; lang en'>\n  </div>\n</div>\n"
    );
    let html = g.generate_hocr_html(&vec![page]);
    assert!(html.starts_with("<!DOCTYPE html PUBLIC \"-//W3C//DTD XHTML 1.0 Transitional//EN\""));
    assert!(html.contains("<meta name=\"ocr-system\" content=\"cbeta-pdf-creator 1.0\" />\n"));
    assert!(html.contains("<title>OCR Output</title>\n</head>\n<body>\n<div class='ocr_page' id='page_3'"));
    assert!(html.ends_with("</div>\n</body>\n</html>"));
    let empty = g.generate_hocr_html(&Vec::new());
    assert!(empty.ends_with("<body>\n</body>\n</html>"));
    assert_eq!(empty.lines().count(), 11);
}
