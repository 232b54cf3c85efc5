use cbeta_pdf_creator::bilingual_generator::{
    create_bilingual_generator, create_bilingual_pdf_side_by_side_with_context,
    create_bilingual_pdf_with_context, set_resource, BilingualPdfGenerator, FontResource,
};
use cbeta_pdf_creator::document::{
    Entry, IndirectObject, Operation, PdfDocument, PdfError, PdfObject, StringFormat,
};
use cbeta_pdf_creator::font_objects::{
    chinese_pdf_font_name, cid_to_gid_table, copy_bytes, create_cid_to_gid_map_stream,
    create_embeddable_chinese_font_stream, create_identity_tounicode_cmap_stream,
    make_cid_font, make_composite_font, make_font_descriptor, make_simple_font,
    sanitize_pdf_font_name,
};
use cbeta_pdf_creator::fonts::{FontContext, GlyphMetrics, Justification};
use cbeta_pdf_creator::hocr_layer::{create_hocr_generator, HocrGenerator};
use cbeta_pdf_creator::typography::{FormattedParagraph, LayoutError};
use std::collections::HashMap;

fn entries(pairs: Vec<(&str, PdfObject)>) -> Vec<Entry> {
    pairs.into_iter().map(|(key, value)| Entry { key: key.to_string(), value }).collect()
}

fn dict(pairs: Vec<(&str, PdfObject)>) -> PdfObject {
    PdfObject::Dictionary(entries(pairs))
}

fn object(pairs: Vec<(&str, PdfObject)>) -> IndirectObject {
    IndirectObject::Value(dict(pairs))
}

fn name(text: &str) -> PdfObject {
    PdfObject::Name(text.to_string())
}

fn text(t: &str) -> PdfObject {
    PdfObject::Text(t.as_bytes().to_vec(), StringFormat::Literal)
}

fn whole(n: i64) -> PdfObject {
    PdfObject::Integer(n)
}

fn reference(id: u32) -> PdfObject {
    PdfObject::Reference(id)
}

fn stream(content: Vec<u8>) -> IndirectObject {
    IndirectObject::Stream { dict: Vec::new(), content }
}

fn context_with(name: &str, path: &str, data: Vec<u8>) -> FontContext {
    let mut ctx = FontContext::initialize_fonts(
        GlyphMetrics::new(13_000, 1000),
        name.to_string(),
        path.to_string(),
        data,
        GlyphMetrics::new(6_000, 1000),
        "Times New Roman".to_string(),
        "times.ttf".to_string(),
        Vec::new(),
    );
    ctx.tracking_chinese = 0;
    ctx.tracking_english = 0;
    ctx
}

fn context() -> FontContext {
    context_with("SimSun", "C:\\Windows\\Fonts\\simsun.ttc", vec![1, 2, 3])
}

fn strings(v: &[&str]) -> Vec<String> {
    v.iter().map(|s| s.to_string()).collect()
}

#[test]
fn font_names_are_sanitized() {
    assert_eq!(sanitize_pdf_font_name("Noto Serif CJK TC"), "Noto-Serif-CJK-TC");
    assert_eq!(sanitize_pdf_font_name("A_b-c!@#9"), "A_b-c9");
    assert_eq!(sanitize_pdf_font_name("a\t\u{3000}b"), "a--b");
    assert_eq!(sanitize_pdf_font_name("宋体"), "CJKFont");
    assert_eq!(sanitize_pdf_font_name(""), "CJKFont");
    assert_eq!(sanitize_pdf_font_name("!!!"), "CJKFont");
    assert_eq!(sanitize_pdf_font_name(" "), "-");
    assert_eq!(sanitize_pdf_font_name("Füße"), "Fe");
}

#[test]
fn well_known_faces_have_fixed_names() {
    let name = |n: &str| chinese_pdf_font_name(&context_with(n, "x.ttf", Vec::new()));
    assert_eq!(name("Source Han Sans TC Regular"), "SourceHanSansTC-Regular");
    assert_eq!(name("Microsoft JhengHei"), "MicrosoftJhengHei");
    assert_eq!(name("Microsoft YaHei"), "MicrosoftYaHei");
    assert_eq!(name("SimSun"), "SimSun");
    assert_eq!(name("SimSun Bold"), "SimSun-Bold");
    assert_eq!(name("SimSun  Bold"), "SimSun--Bold");
    assert_eq!(name("simsun bold"), "simsun-bold");
    assert_eq!(name("Noto Serif CJK TC"), "Noto-Serif-CJK-TC");
    assert_eq!(name("標楷體"), "CJKFont");
}

#[test]
fn only_raw_outline_files_are_embedded() {
    let stream = |path: &str, data: Vec<u8>| {
        create_embeddable_chinese_font_stream(&context_with("SimSun", path, data))
    };
    let program = |data: Vec<u8>| {
        Some(IndirectObject::Stream {
            dict: entries(vec![("Length1", whole(data.len() as i64))]),
            content: data,
        })
    };
    assert_eq!(stream("/fonts/SimSunB.ttf", vec![9, 8, 7]), program(vec![9, 8, 7]));
    assert_eq!(stream("C:\\Windows\\Fonts\\SIMSUNB.TTF", vec![1]), program(vec![1]));
    assert_eq!(stream(".tTf", vec![1]), program(vec![1]));
    assert_eq!(stream("/fonts/simsun.ttc", vec![1]), None);
    assert_eq!(stream("/fonts/noto.otf", vec![1]), None);
    assert_eq!(stream("/fonts/simsun.ttf", Vec::new()), None);
    assert_eq!(stream("ttf", vec![1]), None);
    assert_eq!(stream("", vec![1]), None);
    assert_eq!(stream("a.ttf ", vec![1]), None);
    assert_eq!(copy_bytes(&vec![5, 6]), vec![5, 6]);
}

#[test]
fn the_glyph_table_covers_the_basic_multilingual_plane() {
    let mut glyphs = HashMap::new();
    glyphs.insert(0x4F5B, 0x1234);
    glyphs.insert(0x41, 36);
    glyphs.insert(0xD800, 5);
    glyphs.insert(0xFFFF, 0xFFFE);
    glyphs.insert(0x10000, 9);
    let data = cid_to_gid_table(&glyphs);
    assert_eq!(data.len(), 131_072);
    assert_eq!((data[2 * 0x4F5B], data[2 * 0x4F5B + 1]), (0x12, 0x34));
    assert_eq!((data[2 * 0x41], data[2 * 0x41 + 1]), (0, 36));
    assert_eq!((data[2 * 0xFFFF], data[2 * 0xFFFF + 1]), (0xFF, 0xFE));
    assert_eq!((data[2 * 0xD800], data[2 * 0xD800 + 1]), (0, 0));
    assert_eq!(data.iter().filter(|b| **b != 0).count(), 5);
    assert!(cid_to_gid_table(&HashMap::new()).iter().all(|b| *b == 0));
}

#[test]
fn the_glyph_table_holds_the_glyphs_of_the_face() {
    let mut ctx = context_with("SimSun", "/fonts/small.ttf", vec![1]);
    ctx.chinese_font.set_glyph_index('A', 1);
    ctx.chinese_font.set_glyph_index('佛', 0x0102);
    ctx.english_font.set_glyph_index('B', 7);
    assert_eq!(ctx.chinese_font.glyph_index('佛'), 0x0102);
    assert_eq!(ctx.chinese_font.glyph_index('說'), 0);
    match create_cid_to_gid_map_stream(&ctx) {
        IndirectObject::Stream { dict, content: data } => {
            assert!(dict.is_empty());
            assert_eq!(data.len(), 131_072);
            assert_eq!((data[2 * 0x41], data[2 * 0x41 + 1]), (0, 1));
            assert_eq!((data[2 * 0x4F5B], data[2 * 0x4F5B + 1]), (1, 2));
            assert_eq!(data.iter().filter(|b| **b != 0).count(), 3);
        }
        _ => panic!("not a glyph table"),
    }
    let ctx = context_with("SimSun", "/fonts/small.ttf", vec![1]);
    assert_eq!(create_cid_to_gid_map_stream(&ctx), stream(vec![0u8; 131_072]));
}

#[test]
fn the_unicode_map_is_the_identity_over_two_bytes() {
    let expected = "/CIDInit /ProcSet findresource begin
12 dict begin
begincmap
/CIDSystemInfo
<< /Registry (Adobe)
/Ordering (UCS)
/Supplement 0
>> def
/CMapName /Adobe-Identity-UCS def
/CMapType 2 def
1 begincodespacerange
<0000> <FFFF>
endcodespacerange
1 beginbfrange
<0000> <FFFF> <0000>
endbfrange
endcmap
CMapName currentdict /CMap defineresource pop
end
end";
    assert_eq!(create_identity_tounicode_cmap_stream(), stream(expected.as_bytes().to_vec()));
}

#[test]
fn a_new_generator_holds_an_empty_document() {
    let g = BilingualPdfGenerator::new(context());
    assert!(g.document.objects.is_empty());
    assert!(g.document.trailer.is_empty());
    assert!(g.font_objects.is_empty());
    assert_eq!(g.pages_id, 0);
    assert_eq!(g.layout_engine.font_context.chinese_font_name, "SimSun");
    assert!(g.hocr_generator == HocrGenerator::new());
    assert!(create_hocr_generator() == HocrGenerator::default());
    assert_eq!(HocrGenerator::new().word_counter, 0);
    assert_eq!(g.get_page_count(), Err(PdfError::Format));
    assert!(!g.can_take_page(0));
    assert!(g.add_hocr_layer(&Vec::new()).ends_with("<body>\n</body>\n</html>"));
}

#[test]
fn the_safe_area_lies_inside_the_margins() {
    let g = create_bilingual_generator(context());
    assert_eq!(g.safe_content_area(), (82_000, 82_000, 431_000, 678_000));
    let mut ctx = context();
    ctx.set_options(200_000, 250_000, 72_000, 13_000, 12_000, 1400, 0, 0, 600);
    let g = create_bilingual_generator(ctx);
    assert_eq!(g.safe_content_area(), (82_000, 82_000, 120_000, 120_000));
}

fn descriptor(font_file: Option<u32>) -> IndirectObject {
    let mut pairs = vec![
        ("Type", name("FontDescriptor")),
        ("FontName", name("SimSun")),
        ("Flags", whole(4)),
        ("FontBBox", PdfObject::Array(vec![whole(0), whole(-300), whole(1000), whole(1000)])),
        ("ItalicAngle", whole(0)),
        ("Ascent", whole(880)),
        ("Descent", whole(-120)),
        ("CapHeight", whole(700)),
        ("StemV", whole(80)),
    ];
    if let Some(file) = font_file {
        pairs.push(("FontFile2", reference(file)));
    }
    object(pairs)
}

fn cid_font(descriptor: u32, table: Option<u32>) -> IndirectObject {
    object(vec![
        ("Type", name("Font")),
        ("Subtype", name("CIDFontType2")),
        ("BaseFont", name("SimSun")),
        (
            "CIDSystemInfo",
            dict(vec![
                ("Registry", text("Adobe")),
                ("Ordering", text("Identity")),
                ("Supplement", whole(0)),
            ]),
        ),
        ("FontDescriptor", reference(descriptor)),
        ("DW", whole(1000)),
        (
            "CIDToGIDMap",
            match table {
                Some(id) => reference(id),
                None => name("Identity"),
            },
        ),
    ])
}

fn type0(descendant: u32, to_unicode: u32) -> IndirectObject {
    object(vec![
        ("Type", name("Font")),
        ("Subtype", name("Type0")),
        ("BaseFont", name("SimSun")),
        ("Encoding", name("Identity-H")),
        ("DescendantFonts", PdfObject::Array(vec![reference(descendant)])),
        ("ToUnicode", reference(to_unicode)),
    ])
}

fn times() -> IndirectObject {
    object(vec![
        ("Type", name("Font")),
        ("Subtype", name("Type1")),
        ("BaseFont", name("Times-Roman")),
        ("Encoding", name("WinAnsiEncoding")),
    ])
}

fn resource(name: &str, font: u32) -> FontResource {
    FontResource { name: name.to_string(), font }
}

fn pages(kids: &[u32]) -> IndirectObject {
    object(vec![
        ("Type", name("Pages")),
        ("Kids", PdfObject::Array(kids.iter().map(|k| reference(*k)).collect())),
        ("Count", whole(kids.len() as i64)),
    ])
}

fn page(contents: u32, width: i64, height: i64) -> IndirectObject {
    object(vec![
        ("Type", name("Page")),
        ("Parent", reference(6)),
        (
            "Resources",
            dict(vec![("Font", dict(vec![("chinese", reference(4)), ("english", reference(5))]))]),
        ),
        (
            "MediaBox",
            PdfObject::Array(vec![whole(0), whole(0), PdfObject::Real(width), PdfObject::Real(height)]),
        ),
        ("Contents", reference(contents)),
    ])
}

#[test]
fn font_dictionaries() {
    assert_eq!(make_font_descriptor("SimSun", None), descriptor(None));
    assert_eq!(make_font_descriptor("SimSun", Some(3)), descriptor(Some(3)));
    assert_eq!(make_cid_font("SimSun", 2, None), cid_font(2, None));
    assert_eq!(make_cid_font("SimSun", 2, Some(3)), cid_font(2, Some(3)));
    assert_eq!(make_composite_font("SimSun", 4, 5), type0(4, 5));
    assert_eq!(make_simple_font(), times());
}

#[test]
fn a_font_that_is_not_embedded_takes_four_objects() {
    let mut g = BilingualPdfGenerator::new(context());
    assert_eq!(g.add_font_to_document("chinese"), Ok(4));
    assert_eq!(
        g.document.objects,
        vec![
            descriptor(None),
            cid_font(1, None),
            create_identity_tounicode_cmap_stream(),
            type0(2, 3),
        ]
    );
    assert_eq!(g.font_objects, vec![resource("chinese", 4)]);
}

#[test]
fn an_embedded_font_brings_its_program_and_its_glyph_table() {
    let mut ctx = context_with("SimSun", "/fonts/simsunb.ttf", vec![0, 1, 0, 0]);
    ctx.chinese_font.set_glyph_index('佛', 5);
    let table = create_cid_to_gid_map_stream(&ctx);
    let mut g = BilingualPdfGenerator::new(ctx);
    assert_eq!(g.add_font_to_document("chinese"), Ok(6));
    assert_eq!(
        g.document.objects,
        vec![
            IndirectObject::Stream {
                dict: entries(vec![("Length1", whole(4))]),
                content: vec![0, 1, 0, 0],
            },
            descriptor(Some(1)),
            table,
            cid_font(2, Some(3)),
            create_identity_tounicode_cmap_stream(),
            type0(4, 5),
        ]
    );
    let mut g = BilingualPdfGenerator::new(context_with("SimSun", "x.ttf", vec![7]));
    assert_eq!(g.initialize_document(), Ok(()));
    assert_eq!(g.document.objects.len(), 10);
    assert_eq!(g.document.objects[2], stream(vec![0u8; 131_072]));
    assert_eq!(g.pages_id, 8);
}

#[test]
fn any_other_name_gives_the_simple_font() {
    let mut g = BilingualPdfGenerator::new(context());
    assert_eq!(g.add_font_to_document("english"), Ok(1));
    assert_eq!(g.add_font_to_document("footnotes"), Ok(2));
    assert_eq!(g.add_font_to_document("english"), Ok(3));
    assert_eq!(g.document.objects, vec![times(), times(), times()]);
    assert_eq!(g.font_objects, vec![resource("english", 3), resource("footnotes", 2)]);
    assert_eq!(
        g.create_resources_dict(),
        dict(vec![("Font", dict(vec![("english", reference(3)), ("footnotes", reference(2))]))])
    );
}

#[test]
fn resources_are_kept_by_name() {
    let mut resources = Vec::new();
    set_resource(&mut resources, "a", 1);
    set_resource(&mut resources, "b", 2);
    set_resource(&mut resources, "a", 3);
    set_resource(&mut resources, "c", 4);
    assert_eq!(resources, vec![resource("a", 3), resource("b", 2), resource("c", 4)]);
}

#[test]
fn an_initialized_document() {
    let mut g = BilingualPdfGenerator::new(context());
    assert_eq!(g.initialize_document(), Ok(()));
    assert_eq!(g.document.objects.len(), 8);
    assert_eq!(g.document.objects[3], type0(2, 3));
    assert_eq!(g.document.objects[4], times());
    assert_eq!(g.document.objects[5], pages(&[]));
    assert_eq!(
        g.document.objects[6],
        object(vec![
            ("Producer", text("CBETA Bilingual PDF Creator")),
            ("Creator", text("CBETA Project")),
        ])
    );
    assert_eq!(
        g.document.objects[7],
        object(vec![("Type", name("Catalog")), ("Pages", reference(6))])
    );
    assert_eq!(g.document.trailer, entries(vec![("Root", reference(8)), ("Info", reference(7))]));
    assert_eq!(g.pages_id, 6);
    assert_eq!(g.font_objects, vec![resource("chinese", 4), resource("english", 5)]);
    assert_eq!(g.get_page_count(), Ok(0));
    assert!(g.can_take_page(6));
    assert!(!g.can_take_page(5));
}

fn empty_paragraph(height: i64) -> FormattedParagraph {
    FormattedParagraph {
        lines: Vec::new(),
        x: 82_000,
        y: 82_000,
        width: 431_000,
        height,
        is_chinese: false,
        font_size: 12_000,
        line_spacing: 1400,
        leading: 16_800,
    }
}

fn page_kids(doc: &PdfDocument, tree: u32) -> (Vec<u32>, i64) {
    let entries = match &doc.objects[(tree - 1) as usize] {
        IndirectObject::Value(PdfObject::Dictionary(entries)) => entries,
        _ => panic!("not a page tree"),
    };
    let mut kids = Vec::new();
    let mut count = -1;
    for e in entries {
        match (e.key.as_str(), &e.value) {
            ("Kids", PdfObject::Array(items)) => {
                for item in items {
                    match item {
                        PdfObject::Reference(id) => kids.push(*id),
                        _ => panic!("a page is no reference"),
                    }
                }
            }
            ("Count", PdfObject::Integer(n)) => count = *n,
            _ => {}
        }
    }
    (kids, count)
}

fn op(operator: &str, operands: Vec<PdfObject>) -> Operation {
    Operation { operator: operator.to_string(), operands }
}

fn text_object(font: &str, size: i64) -> Vec<Operation> {
    vec![
        op("BT", Vec::new()),
        op("Tf", vec![name(font), PdfObject::Real(size)]),
        op("ET", Vec::new()),
    ]
}

#[test]
fn a_page_takes_two_objects_and_joins_the_tree() {
    let mut g = BilingualPdfGenerator::new(context());
    g.initialize_document().unwrap();
    let paragraphs = vec![empty_paragraph(10_000), empty_paragraph(10_000)];
    assert_eq!(g.create_single_page(&paragraphs, 0, 2), Ok(()));
    assert_eq!(g.document.objects.len(), 10);
    assert_eq!(g.document.objects[8], page(10, 595_000, 842_000));
    let mut twice = text_object("english", 12_000);
    twice.extend(text_object("english", 12_000));
    assert_eq!(g.document.objects[9], IndirectObject::Content { operations: twice });
    assert_eq!(g.document.objects[5], pages(&[9]));
    assert_eq!(page_kids(&g.document, 6), (vec![9], 1));
    assert_eq!(g.create_single_page(&paragraphs, 1, 1), Ok(()));
    assert_eq!(page_kids(&g.document, 6), (vec![9, 11], 2));
    assert_eq!(g.get_page_count(), Ok(2));
}

#[test]
fn a_page_needs_a_page_tree() {
    let mut g = BilingualPdfGenerator::new(context());
    let paragraphs = vec![empty_paragraph(10_000)];
    assert_eq!(g.create_single_page(&paragraphs, 0, 1), Err(PdfError::Format));
    assert!(g.document.objects.is_empty());
    g.add_font_to_document("english").unwrap();
    g.pages_id = 1;
    assert_eq!(g.create_single_page(&paragraphs, 0, 1), Err(PdfError::Format));
    assert_eq!(g.document.objects.len(), 1);
}

#[test]
fn paragraphs_fill_pages_in_order() {
    // each paragraph is given by the space above it and its height; the area is 678 pt high
    let counts = |paragraphs: &[(i64, i64)]| {
        let mut g = BilingualPdfGenerator::new(context());
        g.initialize_document().unwrap();
        let mut y = 82_000;
        let mut placed = Vec::new();
        for (gap, height) in paragraphs {
            y += gap;
            let mut p = empty_paragraph(*height);
            p.y = y;
            placed.push(p);
            y += height;
        }
        assert_eq!(g.create_pages_from_paragraphs(&placed), Ok(()));
        let (kids, count) = page_kids(&g.document, 6);
        assert_eq!(count as usize, kids.len());
        // each page holds one text object of three instructions for each paragraph
        kids.iter()
            .map(|k| match &g.document.objects[*k as usize] {
                IndirectObject::Content { operations } => operations.len() / 3,
                _ => panic!("no content"),
            })
            .collect::<Vec<usize>>()
    };
    assert_eq!(counts(&[]), Vec::<usize>::new());
    assert_eq!(counts(&[(0, 300_000)]), vec![1]);
    assert_eq!(counts(&[(0, 300_000), (0, 300_000), (0, 300_000)]), vec![2, 1]);
    assert_eq!(counts(&[(0, 339_000), (0, 339_000), (0, 1)]), vec![2, 1]);
    assert_eq!(counts(&[(0, 339_000), (0, 339_000), (0, 0)]), vec![3]);
    // the space between paragraphs counts
    assert_eq!(counts(&[(0, 339_000), (1, 339_000)]), vec![1, 1]);
    assert_eq!(counts(&[(0, 300_000), (78_000, 300_000)]), vec![2]);
    assert_eq!(counts(&[(0, 300_000), (78_001, 300_000)]), vec![1, 1]);
    // the space above the first paragraph of a page does not
    assert_eq!(counts(&[(500_000, 339_000), (0, 339_000)]), vec![2]);
    // a paragraph higher than a page stands alone
    assert_eq!(counts(&[(0, 700_000), (0, 10_000)]), vec![1, 1]);
    assert_eq!(counts(&[(0, 10_000), (0, 700_000), (0, 10_000)]), vec![1, 1, 1]);
    assert_eq!(counts(&[(0, 678_000), (0, 678_000)]), vec![1, 1]);
}

fn show_texts(operations: &Vec<Operation>) -> Vec<&Vec<PdfObject>> {
    operations
        .iter()
        .filter(|o| o.operator == "TJ")
        .map(|o| match &o.operands[0] {
            PdfObject::Array(items) => items,
            _ => panic!("no array"),
        })
        .collect()
}

fn origins(operations: &Vec<Operation>) -> Vec<(i64, i64)> {
    operations
        .iter()
        .filter(|o| o.operator == "Tm")
        .map(|o| match (&o.operands[4], &o.operands[5]) {
            (PdfObject::Real(x), PdfObject::Real(y)) => {
                assert_eq!(o.operands[..4], [
                    PdfObject::Real(1000),
                    PdfObject::Real(0),
                    PdfObject::Real(0),
                    PdfObject::Real(1000),
                ]);
                (*x, *y)
            }
            _ => panic!("no numbers"),
        })
        .collect()
}

fn fonts_chosen(operations: &Vec<Operation>) -> Vec<String> {
    operations
        .iter()
        .filter(|o| o.operator == "Tf")
        .map(|o| match &o.operands[0] {
            PdfObject::Name(name) => name.clone(),
            _ => panic!("no name"),
        })
        .collect()
}

fn contents(doc: &PdfDocument) -> Vec<&Vec<Operation>> {
    doc.objects
        .iter()
        .filter_map(|o| match o {
            IndirectObject::Content { operations } => Some(operations),
            _ => None,
        })
        .collect()
}

fn literal(text: &str) -> Vec<PdfObject> {
    let mut items = Vec::new();
    for (i, b) in text.bytes().enumerate() {
        if i > 0 {
            items.push(PdfObject::Real(0));
        }
        items.push(PdfObject::Text(vec![b], StringFormat::Literal));
    }
    items
}

#[test]
fn alternating_sections_on_one_page() {
    let chinese = strings(&["這是測試中文段落。", "第二個中文段落。"]);
    let english = strings(&["This is a test English paragraph.", "Second English paragraph."]);
    let doc = create_bilingual_pdf_with_context(&chinese, &english, context()).unwrap();
    assert_eq!(doc.objects.len(), 10);
    assert_eq!(doc.trailer, entries(vec![("Root", reference(8)), ("Info", reference(7))]));
    assert_eq!(doc.objects[7], object(vec![("Type", name("Catalog")), ("Pages", reference(6))]));
    assert_eq!(doc.objects[5], pages(&[9]));
    assert_eq!(doc.objects[8], page(10, 595_000, 842_000));
    let streams = contents(&doc);
    assert_eq!(streams.len(), 1);
    let operations = streams[0];
    assert_eq!(fonts_chosen(operations), strings(&["chinese", "english", "chinese", "english"]));
    // a Chinese line is 18.2 pt high, an English one 16.8 pt; the gap is 9.1 pt,
    // and two gaps more lie between the sections
    assert_eq!(
        origins(operations),
        vec![
            (82_000, 842_000 - 82_000),
            (82_000, 842_000 - 109_300),
            (82_000, 842_000 - 153_400),
            (82_000, 842_000 - 180_700),
        ]
    );
    let shown = show_texts(operations);
    assert_eq!(shown.len(), 4);
    assert_eq!(shown[0].len(), 2 * 9 - 1);
    assert_eq!(shown[0][0], PdfObject::Text(vec![0x90, 0x19], StringFormat::Hexadecimal));
    assert_eq!(*shown[1], literal("This is a test English paragraph."));
    assert_eq!(shown[2][0], PdfObject::Text(vec![0x7B, 0x2C], StringFormat::Hexadecimal));
    assert_eq!(*shown[3], literal("Second English paragraph."));
    assert_eq!(operations.len(), 4 * 5);
}

#[test]
fn sections_that_differ_in_number_are_refused() {
    let chinese = strings(&["一", "二"]);
    let english = strings(&["one", "two", "three"]);
    assert_eq!(
        create_bilingual_pdf_with_context(&chinese, &english, context()).err(),
        Some(PdfError::SectionMismatch { chinese: 2, english: 3 })
    );
    assert_eq!(
        create_bilingual_pdf_side_by_side_with_context(&english, &chinese, context()).err(),
        Some(PdfError::SectionMismatch { chinese: 3, english: 2 })
    );
    let mut g = BilingualPdfGenerator::new(context());
    assert_eq!(
        g.generate_bilingual_pdf(&chinese, &english),
        Err(PdfError::SectionMismatch { chinese: 2, english: 3 })
    );
    assert!(g.document.objects.is_empty());
}

#[test]
fn a_row_without_chinese_text_holds_the_english_paragraph_alone() {
    let g = BilingualPdfGenerator::new(context());
    let (left, right, height) = g
        .layout_side_by_side_row("", "Thus have I heard.", 82_000, 309_500, 82_000, 203_500)
        .unwrap();
    assert!(left.is_none());
    let p = right.unwrap();
    assert_eq!(p.lines.len(), 1);
    assert_eq!((p.x, p.y, p.width), (309_500, 82_000, 203_500));
    assert_eq!(p.height, 16_800);
    // one English line is lower than a Chinese line: the floor applies
    assert_eq!(height, 18_200);
    let long = "a ".repeat(200);
    let (left, right, height) =
        g.layout_side_by_side_row("  \n", &long, 82_000, 309_500, 82_000, 203_500).unwrap();
    assert!(left.is_none());
    let p = right.unwrap();
    assert!(p.lines.len() > 2);
    assert_eq!(height, p.height);
    assert_eq!(height, p.lines.len() as i64 * 16_800);
}

#[test]
fn side_by_side_document_without_chinese_text() {
    let doc = create_bilingual_pdf_side_by_side_with_context(
        &strings(&[""]),
        &strings(&["Thus have I heard."]),
        context(),
    )
    .unwrap();
    assert_eq!(page_kids(&doc, 6), (vec![9], 1));
    let pages = contents(&doc);
    assert_eq!(pages.len(), 1);
    assert_eq!(
        *pages[0],
        vec![
            op("BT", Vec::new()),
            op("Tf", vec![name("english"), PdfObject::Real(12_000)]),
            op(
                "Tm",
                vec![
                    PdfObject::Real(1000),
                    PdfObject::Real(0),
                    PdfObject::Real(0),
                    PdfObject::Real(1000),
                    PdfObject::Real(309_500),
                    PdfObject::Real(760_000),
                ],
            ),
            op("TJ", vec![PdfObject::Array(literal("Thus have I heard."))]),
            op("ET", Vec::new()),
        ]
    );
}

#[test]
fn side_by_side_rows_share_their_top() {
    let doc = create_bilingual_pdf_side_by_side_with_context(
        &strings(&["如是我聞。", "一時。"]),
        &strings(&["Thus have I heard.", "At one time."]),
        context(),
    )
    .unwrap();
    let pages = contents(&doc);
    assert_eq!(pages.len(), 1);
    assert_eq!(fonts_chosen(pages[0]), strings(&["chinese", "english", "chinese", "english"]));
    // a row is a Chinese line high; the space below it is 0.6 of that
    assert_eq!(
        origins(pages[0]),
        vec![
            (82_000, 760_000),
            (309_500, 760_000),
            (82_000, 760_000 - 18_200 - 10_920),
            (309_500, 760_000 - 18_200 - 10_920),
        ]
    );
}

#[test]
fn a_row_that_does_not_fit_opens_a_page_and_is_laid_out_at_its_top() {
    let mut ctx = context();
    // the area is 120 pt high: four rows of 18.2 + 10.92 pt fit, the fifth does not
    ctx.set_options(595_000, 250_000, 72_000, 13_000, 12_000, 1400, 0, 0, 600);
    let zh = strings(&["一", "二", "三", "四", "五", "六"]);
    let en = strings(&["a", "b", "c", "d", "e", "f"]);
    let doc = create_bilingual_pdf_side_by_side_with_context(&zh, &en, ctx).unwrap();
    let (kids, count) = page_kids(&doc, 6);
    assert_eq!(count, 2);
    assert_eq!(kids, vec![9, 11]);
    let pages = contents(&doc);
    assert_eq!(pages.len(), 2);
    let tops: Vec<i64> = origins(pages[0]).iter().map(|o| 250_000 - o.1).collect();
    assert_eq!(
        tops,
        vec![82_000, 82_000, 111_120, 111_120, 140_240, 140_240, 169_360, 169_360]
    );
    let tops: Vec<i64> = origins(pages[1]).iter().map(|o| 250_000 - o.1).collect();
    assert_eq!(tops, vec![82_000, 82_000, 111_120, 111_120]);
}

#[test]
fn blank_sections_give_no_paragraphs_and_no_pages() {
    let doc =
        create_bilingual_pdf_with_context(&strings(&["", " "]), &strings(&["\n", ""]), context())
            .unwrap();
    assert_eq!(doc.objects.len(), 8);
    assert_eq!(page_kids(&doc, 6), (Vec::new(), 0));
    let doc = create_bilingual_pdf_side_by_side_with_context(&Vec::new(), &Vec::new(), context())
        .unwrap();
    assert_eq!(page_kids(&doc, 6), (Vec::new(), 0));
}

#[test]
fn a_blank_text_leaves_no_gap() {
    let g = BilingualPdfGenerator::new(context());
    let paragraphs = g
        .create_alternating_layout(&strings(&["", "二"]), &strings(&["one", " "]))
        .unwrap();
    assert_eq!(paragraphs.len(), 2);
    assert!(!paragraphs[0].is_chinese);
    assert_eq!(paragraphs[0].y, 82_000);
    assert!(paragraphs[1].is_chinese);
    assert_eq!(paragraphs[1].y, 82_000 + 16_800 + 9_100 + 18_200);
    assert_eq!(paragraphs[1].x, 82_000);
    assert_eq!(paragraphs[1].width, 431_000);
}

#[test]
fn settings_outside_the_range_are_refused() {
    let mut ctx = context();
    ctx.font_size_english = -1;
    assert_eq!(
        create_bilingual_pdf_with_context(&strings(&["一"]), &strings(&["one"]), ctx).err(),
        Some(PdfError::Layout(LayoutError::InvalidGeometry))
    );
    let mut ctx = context();
    ctx.page_height = 0;
    assert_eq!(
        create_bilingual_pdf_side_by_side_with_context(&Vec::new(), &Vec::new(), ctx).err(),
        Some(PdfError::Layout(LayoutError::InvalidGeometry))
    );
}

#[test]
fn a_text_that_is_too_long_is_refused() {
    let long = "a".repeat(1_000_001);
    assert_eq!(
        create_bilingual_pdf_with_context(&strings(&["一"]), &vec![long.clone()], context()).err(),
        Some(PdfError::Layout(LayoutError::TextTooLong))
    );
    assert_eq!(
        create_bilingual_pdf_side_by_side_with_context(&strings(&["一"]), &vec![long], context())
            .err(),
        Some(PdfError::Layout(LayoutError::TextTooLong))
    );
}

#[test]
fn a_refused_text_leaves_the_initialized_document() {
    let long = "a".repeat(1_000_001);
    let mut fresh = BilingualPdfGenerator::new(context());
    assert_eq!(fresh.initialize_document(), Ok(()));
    let mut g = BilingualPdfGenerator::new(context());
    assert_eq!(
        g.generate_bilingual_pdf(&strings(&["一"]), &vec![long.clone()]),
        Err(PdfError::Layout(LayoutError::TextTooLong))
    );
    assert_eq!(g.document.objects, fresh.document.objects);
    assert_eq!(g.document.trailer, fresh.document.trailer);
    assert_eq!(g.get_page_count(), Ok(0));
    // side by side, the rows before the refused one are on no page yet
    let mut g = BilingualPdfGenerator::new(context());
    assert_eq!(
        g.generate_bilingual_pdf_side_by_side(&strings(&["一", "二"]), &vec!["one".to_string(), long]),
        Err(PdfError::Layout(LayoutError::TextTooLong))
    );
    assert_eq!(g.document.objects, fresh.document.objects);
    assert_eq!(g.document.trailer, fresh.document.trailer);
}

#[test]
fn a_page_that_cannot_be_added_leaves_the_pages_before_it() {
    let mut g = BilingualPdfGenerator::new(context());
    // without a page tree no page can be added
    let paragraphs = vec![empty_paragraph(10_000)];
    assert_eq!(g.create_pages_from_paragraphs(&paragraphs), Err(PdfError::Format));
    assert!(g.document.objects.is_empty());
    assert_eq!(
        g.create_pages_side_by_side(&strings(&["一"]), &strings(&["one"])),
        Err(PdfError::Format)
    );
    assert!(g.document.objects.is_empty());
}

#[test]
fn left_aligned_text_records_no_adjustments() {
    let mut ctx = context();
    ctx.justification = Justification::Left;
    let g = BilingualPdfGenerator::new(ctx);
    let long = "word ".repeat(60);
    let paragraphs = g.create_alternating_layout(&strings(&[""]), &vec![long]).unwrap();
    assert_eq!(paragraphs.len(), 1);
    assert!(paragraphs[0].lines.len() > 2);
    for line in &paragraphs[0].lines {
        assert!(line.space_adjustments.is_empty());
        assert!(!line.is_justified);
    }
}

#[test]
fn every_page_starts_at_the_top_of_the_area() {
    let mut ctx = context();
    // the area is 120 pt high
    ctx.set_options(595_000, 250_000, 72_000, 13_000, 12_000, 1400, 0, 0, 600);
    let zh = strings(&["一", "二", "三", "四", "五", "六", "七"]);
    let en = strings(&["", "", "", "", "", "", ""]);
    let g = BilingualPdfGenerator::new(ctx.clone());
    let paragraphs = g.create_alternating_layout(&zh, &en).unwrap();
    let tops: Vec<i64> = paragraphs.iter().map(|p| p.y).collect();
    // a paragraph is 18.2 pt high, followed by a gap of 9.1 pt and two more between sections
    assert_eq!(
        tops,
        vec![82_000, 127_500, 173_000, 218_500, 264_000, 309_500, 355_000]
    );
    let doc = create_bilingual_pdf_with_context(&zh, &en, ctx).unwrap();
    // three paragraphs with the space between them reach 109.2 pt down; a fourth
    // would reach 154.7 pt
    assert_eq!(page_kids(&doc, 6), (vec![9, 11, 13], 3));
    let pages = contents(&doc);
    for page in &pages[..2] {
        let tops: Vec<i64> = origins(page).iter().map(|o| 250_000 - o.1).collect();
        assert_eq!(tops, vec![82_000, 127_500, 173_000]);
    }
    let tops: Vec<i64> = origins(pages[2]).iter().map(|o| 250_000 - o.1).collect();
    assert_eq!(tops, vec![82_000]);
    // no line starts below the area, which ends 202 pt down
    for page in &pages {
        for origin in origins(page) {
            assert!(250_000 - origin.1 + 18_200 <= 202_000);
        }
    }
}

#[test]
fn paragraphs_of_a_page_keep_their_distances() {
    let mut g = BilingualPdfGenerator::new(context());
    g.initialize_document().unwrap();
    let e = &g.layout_engine;
    let paragraphs = vec![
        e.layout_paragraph("a", 82_000, 500_000, 431_000, false).unwrap(),
        e.layout_paragraph("b", 90_000, 530_000, 431_000, false).unwrap(),
    ];
    assert_eq!(g.create_single_page(&paragraphs, 0, 2), Ok(()));
    assert_eq!(g.create_single_page(&paragraphs, 1, 2), Ok(()));
    let pages = contents(&g.document);
    assert_eq!(origins(pages[0]), vec![(82_000, 760_000), (90_000, 730_000)]);
    assert_eq!(origins(pages[1]), vec![(90_000, 760_000)]);
}
