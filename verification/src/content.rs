//! Content streams: the instructions that show the lines of a paragraph.

use crate::chars::string_to_chars;
use crate::document::{
    array, name, object_views, ObjectView, Operation, operation_views, OperationView, PdfObject,
    StringFormat,
};
use crate::fonts::FontContext;
use crate::justify::space_width;
use crate::lines::{
    FormattedLine, FormattedParagraph, LineView, paragraph_views, ParagraphView, SpaceAdjustment,
};
use crate::units::{lemma_trunc_div_bounds, scale, scale_i64};
use vstd::prelude::*;

verus! {

/// The UTF-16 code units of `c`, each written high byte first: two bytes
/// for a character of the Basic Multilingual Plane, a surrogate pair of four
/// bytes for any other.
pub open spec fn utf16_be(c: char) -> Seq<u8> {
    let u = c as u32 as int;
    if u < 0x10000 {
        seq![(u / 256) as u8, (u % 256) as u8]
    } else {
        let v = u - 0x10000;
        let high = 0xD800 + v / 1024;
        let low = 0xDC00 + v % 1024;
        seq![(high / 256) as u8, (high % 256) as u8, (low / 256) as u8, (low % 256) as u8]
    }
}

/// Encodes `c` in UTF-16, high byte first.
pub fn encode_utf16_be(c: char) -> (bytes: Vec<u8>)
    ensures
        bytes@ == utf16_be(c),
{
    let u: u32 = c as u32;
    let mut bytes: Vec<u8> = Vec::new();
    if u < 0x10000 {
        bytes.push((u / 256) as u8);
        bytes.push((u % 256) as u8);
    } else {
        let v: u32 = u - 0x10000;
        let high: u32 = 0xD800 + v / 1024;
        let low: u32 = 0xDC00 + v % 1024;
        bytes.push((high / 256) as u8);
        bytes.push((high % 256) as u8);
        bytes.push((low / 256) as u8);
        bytes.push((low % 256) as u8);
    }
    assert(bytes@ =~= utf16_be(c));
    bytes
}

/// The code of `c` in the Windows-ANSI encoding, if it has one: the code
/// point itself for ASCII and for U+00A0 to U+00FF, and a code from 0x80 to
/// 0x9F for the twenty-seven other characters of the set.
pub open spec fn win_ansi_code(c: char) -> Option<u8> {
    let u = c as u32;
    if u < 0x80 || 0xA0 <= u <= 0xFF {
        Some(u as u8)
    } else if u == 0x20AC {
        Some(0x80u8)
    } else if u == 0x201A {
        Some(0x82u8)
    } else if u == 0x0192 {
        Some(0x83u8)
    } else if u == 0x201E {
        Some(0x84u8)
    } else if u == 0x2026 {
        Some(0x85u8)
    } else if u == 0x2020 {
        Some(0x86u8)
    } else if u == 0x2021 {
        Some(0x87u8)
    } else if u == 0x02C6 {
        Some(0x88u8)
    } else if u == 0x2030 {
        Some(0x89u8)
    } else if u == 0x0160 {
        Some(0x8Au8)
    } else if u == 0x2039 {
        Some(0x8Bu8)
    } else if u == 0x0152 {
        Some(0x8Cu8)
    } else if u == 0x017D {
        Some(0x8Eu8)
    } else if u == 0x2018 {
        Some(0x91u8)
    } else if u == 0x2019 {
        Some(0x92u8)
    } else if u == 0x201C {
        Some(0x93u8)
    } else if u == 0x201D {
        Some(0x94u8)
    } else if u == 0x2022 {
        Some(0x95u8)
    } else if u == 0x2013 {
        Some(0x96u8)
    } else if u == 0x2014 {
        Some(0x97u8)
    } else if u == 0x02DC {
        Some(0x98u8)
    } else if u == 0x2122 {
        Some(0x99u8)
    } else if u == 0x0161 {
        Some(0x9Au8)
    } else if u == 0x203A {
        Some(0x9Bu8)
    } else if u == 0x0153 {
        Some(0x9Cu8)
    } else if u == 0x017E {
        Some(0x9Eu8)
    } else if u == 0x0178 {
        Some(0x9Fu8)
    } else {
        None
    }
}

/// The byte that shows `c` in Latin text: its Windows-ANSI code, and a
/// question mark for a character outside that set.
pub open spec fn latin_byte(c: char) -> u8 {
    match win_ansi_code(c) {
        Some(b) => b,
        None => 0x3F,
    }
}

/// The glyph code of `c` in a show-text array: for Chinese text its UTF-16
/// code units as a hexadecimal string, for Latin text one byte as a literal
/// string.
pub open spec fn glyph_item(c: char, is_chinese: bool) -> ObjectView {
    if is_chinese {
        ObjectView::Text(utf16_be(c), StringFormat::Hexadecimal)
    } else {
        ObjectView::Text(seq![latin_byte(c)], StringFormat::Literal)
    }
}

/// The ratio recorded for the space at character position `position`: that
/// of the last such record, if there is one.
pub open spec fn ratio_at(adjustments: Seq<SpaceAdjustment>, position: int) -> Option<int>
    decreases adjustments.len(),
{
    if adjustments.len() == 0 {
        None
    } else if adjustments.last().position == position {
        Some(adjustments.last().adjustment_ratio as int)
    } else {
        ratio_at(adjustments.drop_last(), position)
    }
}

/// What justification adds after the character at position `i` of a line,
/// in millionths of an em: nothing unless the character is a space with a
/// recorded adjustment.
pub open spec fn space_extra(ctx: FontContext, line: LineView, i: int) -> int {
    if line.text[i] == ' ' && ratio_at(line.space_adjustments, i) is Some {
        scale(
            scale(space_width(ctx, line.is_chinese), ratio_at(line.space_adjustments, i)->0, 1000),
            1_000_000,
            line.font_size,
        )
    } else {
        0
    }
}

/// The displacement between the characters at positions `i` and `i + 1` of
/// a line, in millionths of an em, which are thousandths of the unit of a
/// show-text array: the pair's kerning, the tracking, and what justification
/// adds to a space.
pub open spec fn displacement(ctx: FontContext, line: LineView, i: int) -> int {
    scale(
        ctx.metrics(line.is_chinese).kern_of(line.text[i], line.text[i + 1]),
        1_000_000,
        ctx.metrics(line.is_chinese).em_units(),
    ) + ctx.tracking(line.is_chinese) * 1000 + space_extra(ctx, line, i)
}

/// The show-text array for the first `n` characters of a line: the glyph
/// codes in order, with a displacement between each two neighbours.
pub open spec fn show_items(ctx: FontContext, line: LineView, n: int) -> Seq<ObjectView>
    decreases n,
{
    if n <= 0 {
        Seq::empty()
    } else if n == 1 {
        seq![glyph_item(line.text[0], line.is_chinese)]
    } else {
        show_items(ctx, line, n - 1).push(ObjectView::Real(displacement(ctx, line, n - 2))).push(
            glyph_item(line.text[n - 1], line.is_chinese),
        )
    }
}

/// The show-text array of a line.
pub open spec fn show_array(ctx: FontContext, line: LineView) -> Seq<ObjectView> {
    show_items(ctx, line, line.text.len() as int)
}

/// The resource name of the font of a script.
pub open spec fn font_resource_name(is_chinese: bool) -> Seq<char> {
    if is_chinese {
        "chinese"@
    } else {
        "english"@
    }
}

/// The paragraph moved up by `lift`.
pub open spec fn lifted(p: ParagraphView, lift: int) -> ParagraphView {
    ParagraphView { y: p.y - lift, ..p }
}

/// Each of the paragraphs moved up by `lift`.
pub open spec fn lifted_all(ps: Seq<ParagraphView>, lift: int) -> Seq<ParagraphView> {
    ps.map_values(|p: ParagraphView| lifted(p, lift))
}

/// Largest distance by which the paragraphs of a page are moved.
pub const MAX_LIFT: i64 = 4_000_000_100_000_000_000;

/// The instruction that sets the text matrix to the identity moved to `x`,
/// `y`.
pub open spec fn text_matrix(x: int, y: int) -> OperationView {
    OperationView {
        operator: "Tm"@,
        operands: seq![
            ObjectView::Real(1000),
            ObjectView::Real(0),
            ObjectView::Real(0),
            ObjectView::Real(1000),
            ObjectView::Real(x),
            ObjectView::Real(y),
        ],
    }
}

/// The instruction that shows the glyphs of an array.
pub open spec fn show_text(items: Seq<ObjectView>) -> OperationView {
    OperationView { operator: "TJ"@, operands: seq![ObjectView::Array(items)] }
}

/// The instruction that selects a font by its resource name, at a size.
pub open spec fn select_font(font: Seq<char>, size: int) -> OperationView {
    OperationView { operator: "Tf"@, operands: seq![ObjectView::Name(font), ObjectView::Real(size)] }
}

/// The instruction that begins a text object.
pub open spec fn begin_text() -> OperationView {
    OperationView { operator: "BT"@, operands: Seq::empty() }
}

/// The instruction that ends a text object.
pub open spec fn end_text() -> OperationView {
    OperationView { operator: "ET"@, operands: Seq::empty() }
}

/// The instructions that place and show the first `n` lines of a paragraph.
/// A line's text origin is the paragraph's origin moved by the line's own;
/// the page's vertical axis points up.
pub open spec fn line_operations(
    ctx: FontContext,
    p: ParagraphView,
    n: int,
) -> Seq<OperationView>
    decreases n,
{
    if n <= 0 {
        Seq::empty()
    } else {
        let line = p.lines[n - 1];
        line_operations(ctx, p, n - 1).push(
            text_matrix(p.x + line.x, ctx.page_height - (p.y + line.baseline)),
        ).push(show_text(show_array(ctx, line)))
    }
}

/// The instructions that show a paragraph: a text object that selects the
/// script's font and shows each line at its place.
pub open spec fn paragraph_operations(ctx: FontContext, p: ParagraphView) -> Seq<OperationView> {
    seq![begin_text(), select_font(font_resource_name(p.is_chinese), p.font_size)]
        + line_operations(ctx, p, p.lines.len() as int) + seq![end_text()]
}

/// The instructions that show the first `n` of some paragraphs, one after
/// the other.
pub open spec fn page_operations(
    ctx: FontContext,
    paragraphs: Seq<ParagraphView>,
    n: int,
) -> Seq<OperationView>
    decreases n,
{
    if n <= 0 {
        Seq::empty()
    } else {
        page_operations(ctx, paragraphs, n - 1) + paragraph_operations(ctx, paragraphs[n - 1])
    }
}

/// Looks up the ratio recorded for the space at `position`.
pub fn find_ratio(adjustments: &Vec<SpaceAdjustment>, position: usize) -> (r: Option<i64>)
    ensures
        match r {
            Some(v) => ratio_at(adjustments@, position as int) == Some(v as int),
            None => ratio_at(adjustments@, position as int) is None,
        },
{
    let mut i: usize = adjustments.len();
    assert(adjustments@.take(i as int) == adjustments@);
    while i > 0
        invariant
            i <= adjustments.len(),
            ratio_at(adjustments@, position as int) == ratio_at(
                adjustments@.take(i as int),
                position as int,
            ),
        decreases i,
    {
        proof {
            assert(adjustments@.take(i as int).last() == adjustments@[i - 1]);
            assert(adjustments@.take(i as int).drop_last() == adjustments@.take(i - 1));
        }
        if adjustments[i - 1].position == position {
            return Some(adjustments[i - 1].adjustment_ratio);
        }
        i -= 1;
    }
    None
}

/// A recorded ratio is one of the ratios of the records.
pub proof fn lemma_ratio_at_bounded(adjustments: Seq<SpaceAdjustment>, position: int)
    requires
        forall|k: int|
            0 <= k < adjustments.len() ==> -500 <= (#[trigger] adjustments[k]).adjustment_ratio
                <= 500,
    ensures
        ratio_at(adjustments, position) is Some ==> -500 <= ratio_at(adjustments, position)->0
            <= 500,
    decreases adjustments.len(),
{
    if adjustments.len() > 0 {
        if adjustments.last().position != position {
            lemma_ratio_at_bounded(adjustments.drop_last(), position);
        }
    }
}

/// The byte that shows `c` in Latin text.
pub fn encode_latin(c: char) -> (b: u8)
    ensures
        b == latin_byte(c),
{
    let u: u32 = c as u32;
    if u < 0x80 || (0xA0 <= u && u <= 0xFF) {
        u as u8
    } else if u == 0x20AC {
        0x80
    } else if u == 0x201A {
        0x82
    } else if u == 0x0192 {
        0x83
    } else if u == 0x201E {
        0x84
    } else if u == 0x2026 {
        0x85
    } else if u == 0x2020 {
        0x86
    } else if u == 0x2021 {
        0x87
    } else if u == 0x02C6 {
        0x88
    } else if u == 0x2030 {
        0x89
    } else if u == 0x0160 {
        0x8A
    } else if u == 0x2039 {
        0x8B
    } else if u == 0x0152 {
        0x8C
    } else if u == 0x017D {
        0x8E
    } else if u == 0x2018 {
        0x91
    } else if u == 0x2019 {
        0x92
    } else if u == 0x201C {
        0x93
    } else if u == 0x201D {
        0x94
    } else if u == 0x2022 {
        0x95
    } else if u == 0x2013 {
        0x96
    } else if u == 0x2014 {
        0x97
    } else if u == 0x02DC {
        0x98
    } else if u == 0x2122 {
        0x99
    } else if u == 0x0161 {
        0x9A
    } else if u == 0x203A {
        0x9B
    } else if u == 0x0153 {
        0x9C
    } else if u == 0x017E {
        0x9E
    } else if u == 0x0178 {
        0x9F
    } else {
        0x3F
    }
}

/// The glyph code of `c` in a show-text array.
pub fn make_glyph_item(c: char, is_chinese: bool) -> (item: PdfObject)
    ensures
        item@ == glyph_item(c, is_chinese),
{
    if is_chinese {
        PdfObject::Text(encode_utf16_be(c), StringFormat::Hexadecimal)
    } else {
        let mut bytes: Vec<u8> = Vec::new();
        bytes.push(encode_latin(c));
        assert(bytes@ =~= seq![latin_byte(c)]);
        PdfObject::Text(bytes, StringFormat::Literal)
    }
}

/// The displacement between the characters at positions `i` and `i + 1`.
pub fn displacement_after(ctx: &FontContext, line: &FormattedLine, chars: &Vec<char>, i: usize) -> (d:
    i64)
    requires
        ctx.valid(),
        line@.ready(),
        chars@ == line@.text,
        i + 1 < chars.len(),
    ensures
        d == displacement(*ctx, line@, i as int),
{
    let left = chars[i];
    let right = chars[i + 1];
    let (k, em, tracking): (i64, i64, i64) = if line.is_chinese {
        (ctx.chinese_font.kern(left, right), ctx.chinese_font.units(), ctx.tracking_chinese)
    } else {
        (ctx.english_font.kern(left, right), ctx.english_font.units(), ctx.tracking_english)
    };
    proof {
        assert(-100_000_000_000 <= k * 1_000_000 <= 100_000_000_000) by (nonlinear_arith)
            requires
                -100_000 <= k <= 100_000,
        ;
        lemma_trunc_div_bounds(k * 1_000_000, em as int);
    }
    let kerning: i64 = scale_i64(k, 1_000_000, em);
    let mut extra: i64 = 0;
    if left == ' ' {
        match find_ratio(&line.space_adjustments, i) {
            Some(ratio) => {
                let one: Vec<char> = vec![' '];
                assert(one@ == seq![' ']);
                let base: i64 = ctx.measure_chars(&one, line.is_chinese);
                proof {
                    lemma_ratio_at_bounded(line@.space_adjustments, i as int);
                    assert(-10_000_000_000 <= base * ratio <= 10_000_000_000) by (nonlinear_arith)
                        requires
                            0 <= base <= 20_000_000,
                            -500 <= ratio <= 500,
                    ;
                    lemma_trunc_div_bounds(base * ratio, 1000);
                }
                let widen: i64 = scale_i64(base, ratio, 1000);
                proof {
                    assert(-10_000_000_000_000_000 <= widen * 1_000_000 <= 10_000_000_000_000_000)
                        by (nonlinear_arith)
                        requires
                            -10_000_000_000 <= widen <= 10_000_000_000,
                    ;
                    lemma_trunc_div_bounds(widen * 1_000_000, line.font_size as int);
                }
                extra = scale_i64(widen, 1_000_000, line.font_size);
            },
            None => {},
        }
    }
    kerning + tracking * 1000 + extra
}

/// The show-text array of a line.
pub fn build_tj_array(ctx: &FontContext, line: &FormattedLine) -> (items: Vec<PdfObject>)
    requires
        ctx.valid(),
        line@.ready(),
    ensures
        object_views(items@) == show_array(*ctx, line@),
{
    let chars = string_to_chars(line.text.as_str());
    let mut items: Vec<PdfObject> = Vec::new();
    let mut i: usize = 0;
    while i < chars.len()
        invariant
            ctx.valid(),
            line@.ready(),
            chars@ == line@.text,
            i <= chars.len(),
            object_views(items@) == show_items(*ctx, line@, i as int),
        decreases chars.len() - i,
    {
        let ghost before = object_views(items@);
        if i > 0 {
            let d = displacement_after(ctx, line, &chars, i - 1);
            items.push(PdfObject::Real(d));
            assert(object_views(items@) == before.push(ObjectView::Real(d as int)));
        }
        let ghost middle = object_views(items@);
        let item = make_glyph_item(chars[i], line.is_chinese);
        items.push(item);
        assert(object_views(items@) == middle.push(glyph_item(chars@[i as int], line@.is_chinese)));
        i += 1;
    }
    items
}

/// An instruction without operands.
pub fn plain_operation(operator: &str) -> (op: Operation)
    ensures
        op@ == (OperationView { operator: operator@, operands: Seq::empty() }),
{
    let op = Operation { operator: operator.to_owned(), operands: Vec::new() };
    assert(op@.operands =~= Seq::empty());
    op
}

/// The instruction that selects a font by its resource name, at a size.
pub fn make_select_font(is_chinese: bool, size: i64) -> (op: Operation)
    ensures
        op@ == select_font(font_resource_name(is_chinese), size as int),
{
    let mut operands: Vec<PdfObject> = Vec::new();
    operands.push(PdfObject::Name(font_name_of(is_chinese)));
    operands.push(PdfObject::Real(size));
    let op = Operation { operator: "Tf".to_owned(), operands };
    assert(op@.operands =~= seq![
        ObjectView::Name(font_resource_name(is_chinese)),
        ObjectView::Real(size as int),
    ]);
    op
}

/// The instruction that sets the text matrix to the identity moved to `x`,
/// `y`.
pub fn make_text_matrix(x: i64, y: i64) -> (op: Operation)
    ensures
        op@ == text_matrix(x as int, y as int),
{
    let mut operands: Vec<PdfObject> = Vec::new();
    operands.push(PdfObject::Real(1000));
    operands.push(PdfObject::Real(0));
    operands.push(PdfObject::Real(0));
    operands.push(PdfObject::Real(1000));
    operands.push(PdfObject::Real(x));
    operands.push(PdfObject::Real(y));
    let op = Operation { operator: "Tm".to_owned(), operands };
    assert(op@.operands =~= text_matrix(x as int, y as int).operands);
    op
}

/// The instruction that shows the glyphs of an array.
pub fn make_show_text(items: Vec<PdfObject>) -> (op: Operation)
    ensures
        op@ == show_text(object_views(items@)),
{
    let ghost views = object_views(items@);
    let mut operands: Vec<PdfObject> = Vec::new();
    operands.push(array(items));
    let op = Operation { operator: "TJ".to_owned(), operands };
    assert(op@.operands =~= seq![ObjectView::Array(views)]);
    op
}

/// The resource name of the font of a script.
pub fn font_name_of(is_chinese: bool) -> (name: String)
    ensures
        name@ == font_resource_name(is_chinese),
{
    if is_chinese {
        "chinese".to_owned()
    } else {
        "english".to_owned()
    }
}

/// Appends the instructions that show a paragraph moved up by `lift`.
pub fn add_paragraph_to_content(
    ctx: &FontContext,
    content: &mut Vec<Operation>,
    paragraph: &FormattedParagraph,
    lift: i64,
)
    requires
        ctx.valid(),
        paragraph@.placed(),
        -MAX_LIFT <= lift <= MAX_LIFT,
    ensures
        operation_views(final(content)@) == operation_views(old(content)@) + paragraph_operations(
            *ctx,
            lifted(paragraph@, lift as int),
        ),
{
    let ghost start = operation_views(content@);
    let ghost p = lifted(paragraph@, lift as int);
    content.push(plain_operation("BT"));
    content.push(make_select_font(paragraph.is_chinese, paragraph.font_size));
    let ghost head = seq![begin_text(), select_font(font_resource_name(p.is_chinese), p.font_size)];
    assert(operation_views(content@) =~= start + head);
    let mut i: usize = 0;
    while i < paragraph.lines.len()
        invariant
            ctx.valid(),
            p == lifted(paragraph@, lift as int),
            paragraph@.placed(),
            -MAX_LIFT <= lift <= MAX_LIFT,
            i <= paragraph.lines.len(),
            operation_views(content@) == start + head + line_operations(*ctx, p, i as int),
        decreases paragraph.lines.len() - i,
    {
        let line = &paragraph.lines[i];
        assert(p.lines[i as int] == line@);
        assert(paragraph@.lines[i as int] == line@);
        assert(line@.ready());
        let ghost before = operation_views(content@);
        let x: i64 = paragraph.x + line.x;
        let y: i64 = ctx.page_height - (paragraph.y - lift + line.baseline);
        let items = build_tj_array(ctx, line);
        content.push(make_text_matrix(x, y));
        content.push(make_show_text(items));
        proof {
            let a = text_matrix(x as int, y as int);
            let b = show_text(show_array(*ctx, line@));
            assert(operation_views(content@) =~= before.push(a).push(b));
            assert(line_operations(*ctx, p, i + 1) == line_operations(*ctx, p, i as int).push(
                a,
            ).push(b));
            assert(before.push(a).push(b) =~= start + head + line_operations(*ctx, p, i + 1));
        }
        i += 1;
    }
    let ghost before = operation_views(content@);
    content.push(plain_operation("ET"));
    assert(operation_views(content@) =~= before.push(end_text()));
    assert(before.push(end_text()) =~= start + (head + line_operations(
        *ctx,
        p,
        p.lines.len() as int,
    ) + seq![end_text()]));
}

/// The instructions that show the paragraphs from `start` up to `end`, one
/// after the other, each moved up by `lift`.
pub fn build_page_content(
    ctx: &FontContext,
    paragraphs: &Vec<FormattedParagraph>,
    start: usize,
    end: usize,
    lift: i64,
) -> (content: Vec<Operation>)
    requires
        ctx.valid(),
        start <= end <= paragraphs@.len(),
        forall|i: int| start <= i < end ==> (#[trigger] paragraphs@[i])@.placed(),
        -MAX_LIFT <= lift <= MAX_LIFT,
    ensures
        operation_views(content@) == page_operations(
            *ctx,
            lifted_all(
                paragraph_views(paragraphs@).subrange(start as int, end as int),
                lift as int,
            ),
            end - start,
        ),
{
    let ghost ps = lifted_all(
        paragraph_views(paragraphs@).subrange(start as int, end as int),
        lift as int,
    );
    let mut content: Vec<Operation> = Vec::new();
    assert(operation_views(content@) =~= Seq::empty());
    let mut i: usize = start;
    while i < end
        invariant
            ctx.valid(),
            start <= i <= end <= paragraphs@.len(),
            -MAX_LIFT <= lift <= MAX_LIFT,
            ps == lifted_all(
                paragraph_views(paragraphs@).subrange(start as int, end as int),
                lift as int,
            ),
            forall|k: int| start <= k < end ==> (#[trigger] paragraphs@[k])@.placed(),
            operation_views(content@) == page_operations(*ctx, ps, i - start),
        decreases end - i,
    {
        assert(ps[i - start] == lifted(paragraphs@[i as int]@, lift as int));
        add_paragraph_to_content(ctx, &mut content, &paragraphs[i], lift);
        i += 1;
    }
    content
}

} // verus!
