//! The searchable-text layer: boxes for the pages, paragraphs, lines and
//! words of a document, and their markup.

use crate::chars::{char_is_whitespace, chars_to_string, is_whitespace, string_to_chars};
use crate::lines::{FormattedLine, FormattedParagraph, LineView, paragraph_views, ParagraphView};
use crate::units::{div_trunc, lemma_trunc_div_bounds, trunc_div};
use vstd::prelude::*;
use vstd::utf8::{encode_scalar, encode_utf8};

verus! {

/// A rectangle: left, top, right, bottom.
#[derive(Clone, Copy, Debug, PartialEq, Eq, Structural)]
pub struct BoundingBox {
    pub x0: i64,
    pub y0: i64,
    pub x1: i64,
    pub y1: i64,
}

/// The smallest rectangle that holds both `a` and `b`.
pub open spec fn merged(a: BoundingBox, b: BoundingBox) -> BoundingBox {
    BoundingBox {
        x0: if b.x0 < a.x0 {
            b.x0
        } else {
            a.x0
        },
        y0: if b.y0 < a.y0 {
            b.y0
        } else {
            a.y0
        },
        x1: if b.x1 > a.x1 {
            b.x1
        } else {
            a.x1
        },
        y1: if b.y1 > a.y1 {
            b.y1
        } else {
            a.y1
        },
    }
}

/// The smallest rectangle that holds all of `boxes`; the empty rectangle at
/// the origin where there are none.
pub open spec fn union_of(boxes: Seq<BoundingBox>) -> BoundingBox
    decreases boxes.len(),
{
    if boxes.len() == 0 {
        BoundingBox { x0: 0, y0: 0, x1: 0, y1: 0 }
    } else if boxes.len() == 1 {
        boxes[0]
    } else {
        merged(union_of(boxes.drop_last()), boxes.last())
    }
}

/// The smallest rectangle that holds both `a` and `b`.
pub fn merge_boxes(a: BoundingBox, b: BoundingBox) -> (r: BoundingBox)
    ensures
        r == merged(a, b),
{
    BoundingBox {
        x0: if b.x0 < a.x0 {
            b.x0
        } else {
            a.x0
        },
        y0: if b.y0 < a.y0 {
            b.y0
        } else {
            a.y0
        },
        x1: if b.x1 > a.x1 {
            b.x1
        } else {
            a.x1
        },
        y1: if b.y1 > a.y1 {
            b.y1
        } else {
            a.y1
        },
    }
}

/// The character of the digit `d`.
pub open spec fn digit_char(d: int) -> char {
    if d == 0 {
        '0'
    } else if d == 1 {
        '1'
    } else if d == 2 {
        '2'
    } else if d == 3 {
        '3'
    } else if d == 4 {
        '4'
    } else if d == 5 {
        '5'
    } else if d == 6 {
        '6'
    } else if d == 7 {
        '7'
    } else if d == 8 {
        '8'
    } else {
        '9'
    }
}

/// The decimal digits of `n`, without leading zeros.
pub open spec fn decimal_text(n: nat) -> Seq<char>
    decreases n,
{
    if n < 10 {
        seq![digit_char(n as int)]
    } else {
        decimal_text(n / 10).push(digit_char((n % 10) as int))
    }
}

/// The digits after the decimal point of `f` thousandths, without trailing
/// zeros, and the point before them; nothing for zero.
pub open spec fn fraction_text(f: int) -> Seq<char>
    recommends
        0 <= f < 1000,
{
    if f == 0 {
        Seq::empty()
    } else if f % 100 == 0 {
        seq!['.', digit_char(f / 100)]
    } else if f % 10 == 0 {
        seq!['.', digit_char(f / 100), digit_char(f / 10 % 10)]
    } else {
        seq!['.', digit_char(f / 100), digit_char(f / 10 % 10), digit_char(f % 10)]
    }
}

/// A number of thousandths written as a decimal number.
pub open spec fn thousandths_text(v: int) -> Seq<char> {
    if v < 0 {
        seq!['-'] + decimal_text(((-v) / 1000) as nat) + fraction_text((-v) % 1000)
    } else {
        decimal_text((v / 1000) as nat) + fraction_text(v % 1000)
    }
}

/// The character of a digit.
pub fn digit(d: u64) -> (c: char)
    requires
        d < 10,
    ensures
        c == digit_char(d as int),
{
    if d == 0 {
        '0'
    } else if d == 1 {
        '1'
    } else if d == 2 {
        '2'
    } else if d == 3 {
        '3'
    } else if d == 4 {
        '4'
    } else if d == 5 {
        '5'
    } else if d == 6 {
        '6'
    } else if d == 7 {
        '7'
    } else if d == 8 {
        '8'
    } else {
        '9'
    }
}

/// Appends the decimal digits of `n`.
pub fn push_decimal(out: &mut Vec<char>, n: u64)
    ensures
        final(out)@ == old(out)@ + decimal_text(n as nat),
    decreases n,
{
    if n >= 10 {
        push_decimal(out, n / 10);
    }
    out.push(digit(n % 10));
    proof {
        if n < 10 {
            assert(final(out)@ =~= old(out)@ + seq![digit_char(n as int)]);
        } else {
            assert(final(out)@ =~= old(out)@ + decimal_text((n / 10) as nat).push(
                digit_char((n % 10) as int),
            ));
        }
    }
}

/// Appends all characters of `text`.
pub fn push_text(out: &mut Vec<char>, text: &str)
    ensures
        final(out)@ == old(out)@ + text@,
{
    let chars = string_to_chars(text);
    let mut i: usize = 0;
    while i < chars.len()
        invariant
            i <= chars.len(),
            chars@ == text@,
            out@ == old(out)@ + chars@.take(i as int),
        decreases chars.len() - i,
    {
        out.push(chars[i]);
        i += 1;
        assert(chars@.take(i as int) == chars@.take(i - 1).push(chars@[i - 1]));
        assert(out@ =~= old(out)@ + chars@.take(i as int));
    }
    assert(chars@.take(chars.len() as int) == chars@);
}

/// Appends a number of thousandths, written as a decimal number.
pub fn push_thousandths(out: &mut Vec<char>, v: i64)
    ensures
        final(out)@ == old(out)@ + thousandths_text(v as int),
{
    let magnitude: u64 = if v < 0 {
        out.push('-');
        (-(v + 1)) as u64 + 1
    } else {
        v as u64
    };
    let ghost start = out@;
    push_decimal(out, magnitude / 1000);
    let f: u64 = magnitude % 1000;
    let ghost middle = out@;
    if f != 0 {
        out.push('.');
        out.push(digit(f / 100));
        if f % 100 != 0 {
            out.push(digit(f / 10 % 10));
            if f % 10 != 0 {
                out.push(digit(f % 10));
            }
        }
    }
    proof {
        assert(out@ =~= middle + fraction_text(f as int));
        let w = v as int;
        if v < 0 {
            assert(start =~= old(out)@ + seq!['-']);
            assert(out@ =~= old(out)@ + (seq!['-'] + decimal_text(((-w) / 1000) as nat)
                + fraction_text((-w) % 1000)));
        } else {
            assert(out@ =~= old(out)@ + (decimal_text((w / 1000) as nat) + fraction_text(
                w % 1000,
            )));
        }
    }
}

/// A word of the text layer.
#[derive(Clone, Debug, PartialEq, Eq)]
pub struct HocrWord {
    pub id: String,
    pub bbox: BoundingBox,
    pub text: String,
    /// How sure the text is, in thousandths.
    pub confidence: i64,
}

/// What a word is, as a mathematical value.
pub struct WordView {
    pub id: Seq<char>,
    pub bbox: BoundingBox,
    pub text: Seq<char>,
    pub confidence: int,
}

impl View for HocrWord {
    type V = WordView;

    open spec fn view(&self) -> WordView {
        WordView {
            id: self.id@,
            bbox: self.bbox,
            text: self.text@,
            confidence: self.confidence as int,
        }
    }
}

/// The values of a sequence of words.
pub open spec fn word_views(words: Seq<HocrWord>) -> Seq<WordView> {
    words.map_values(|w: HocrWord| w@)
}

/// A line of the text layer.
#[derive(Clone, Debug, PartialEq, Eq)]
pub struct HocrLine {
    pub id: String,
    pub bbox: BoundingBox,
    pub words: Vec<HocrWord>,
}

/// What a line of the text layer is, as a mathematical value.
pub struct HocrLineView {
    pub id: Seq<char>,
    pub bbox: BoundingBox,
    pub words: Seq<WordView>,
}

impl View for HocrLine {
    type V = HocrLineView;

    open spec fn view(&self) -> HocrLineView {
        HocrLineView { id: self.id@, bbox: self.bbox, words: word_views(self.words@) }
    }
}

/// The values of a sequence of lines.
pub open spec fn hocr_line_views(lines: Seq<HocrLine>) -> Seq<HocrLineView> {
    lines.map_values(|l: HocrLine| l@)
}

/// A paragraph of the text layer.
#[derive(Clone, Debug, PartialEq, Eq)]
pub struct HocrParagraph {
    pub id: String,
    pub bbox: BoundingBox,
    /// `zh` for Chinese, `en` for English.
    pub language: String,
    pub lines: Vec<HocrLine>,
}

/// What a paragraph of the text layer is, as a mathematical value.
pub struct HocrParagraphView {
    pub id: Seq<char>,
    pub bbox: BoundingBox,
    pub language: Seq<char>,
    pub lines: Seq<HocrLineView>,
}

impl View for HocrParagraph {
    type V = HocrParagraphView;

    open spec fn view(&self) -> HocrParagraphView {
        HocrParagraphView {
            id: self.id@,
            bbox: self.bbox,
            language: self.language@,
            lines: hocr_line_views(self.lines@),
        }
    }
}

/// The values of a sequence of paragraphs.
pub open spec fn hocr_paragraph_views(ps: Seq<HocrParagraph>) -> Seq<HocrParagraphView> {
    ps.map_values(|p: HocrParagraph| p@)
}

/// A page of the text layer.
#[derive(Clone, Debug, PartialEq, Eq)]
pub struct HocrPage {
    pub page_number: u32,
    pub bbox: BoundingBox,
    pub paragraphs: Vec<HocrParagraph>,
}

/// What a page of the text layer is, as a mathematical value.
pub struct HocrPageView {
    pub page_number: u32,
    pub bbox: BoundingBox,
    pub paragraphs: Seq<HocrParagraphView>,
}

impl View for HocrPage {
    type V = HocrPageView;

    open spec fn view(&self) -> HocrPageView {
        HocrPageView {
            page_number: self.page_number,
            bbox: self.bbox,
            paragraphs: hocr_paragraph_views(self.paragraphs@),
        }
    }
}

/// The values of a sequence of pages.
pub open spec fn hocr_page_views(ps: Seq<HocrPage>) -> Seq<HocrPageView> {
    ps.map_values(|p: HocrPage| p@)
}

/// Why a text layer could not be made.
#[derive(Clone, Copy, Debug, PartialEq, Eq, Structural)]
pub enum HocrError {
    /// A counter has no number left for the next element.
    CounterExhausted,
}

/// The boxes of some words.
pub open spec fn word_boxes(words: Seq<WordView>) -> Seq<BoundingBox> {
    words.map_values(|w: WordView| w.bbox)
}

/// The boxes of some lines.
pub open spec fn line_boxes(lines: Seq<HocrLineView>) -> Seq<BoundingBox> {
    lines.map_values(|l: HocrLineView| l.bbox)
}

/// The boxes of some paragraphs.
pub open spec fn paragraph_boxes(ps: Seq<HocrParagraphView>) -> Seq<BoundingBox> {
    ps.map_values(|p: HocrParagraphView| p.bbox)
}

/// The words of Latin text that are complete once `s` has been read: the
/// longest runs without white space.
pub open spec fn words_done(s: Seq<char>) -> Seq<Seq<char>>
    decreases s.len(),
{
    if s.len() == 0 {
        Seq::empty()
    } else if is_whitespace(s.last()) && word_open(s.drop_last()).len() > 0 {
        words_done(s.drop_last()).push(word_open(s.drop_last()))
    } else {
        words_done(s.drop_last())
    }
}

/// The word under construction once `s` has been read.
pub open spec fn word_open(s: Seq<char>) -> Seq<char>
    decreases s.len(),
{
    if s.len() == 0 {
        Seq::empty()
    } else if is_whitespace(s.last()) {
        Seq::empty()
    } else {
        word_open(s.drop_last()).push(s.last())
    }
}

/// The words of a text: what white space separates.
pub open spec fn words_of(s: Seq<char>) -> Seq<Seq<char>> {
    if word_open(s).len() > 0 {
        words_done(s).push(word_open(s))
    } else {
        words_done(s)
    }
}

/// The estimated width of a Chinese character in a line `height` high:
/// eight tenths of the height.
pub open spec fn char_extent(height: int) -> int {
    trunc_div(height * 8, 10)
}

/// The estimated width of a Latin word: six tenths of the font size for
/// each byte of its UTF-8 form.
pub open spec fn word_extent(word: Seq<char>, font_size: int) -> int {
    trunc_div(encode_utf8(word).len() * font_size * 6, 10)
}

/// The estimated space after a Latin word: three tenths of the font size.
pub open spec fn word_gap(font_size: int) -> int {
    trunc_div(font_size * 3, 10)
}

/// How far from the start of its line the word numbered `k` begins.
pub open spec fn word_offset(words: Seq<Seq<char>>, font_size: int, k: int) -> int
    decreases k,
{
    if k <= 0 {
        0
    } else {
        word_offset(words, font_size, k - 1) + word_extent(words[k - 1], font_size) + word_gap(
            font_size,
        )
    }
}

/// The identifier of the word numbered `number`.
pub open spec fn word_id(number: int) -> Seq<char> {
    "word_"@ + decimal_text(number as nat)
}

/// The word numbered `k` of a line: a character of a Chinese line, a word
/// of a Latin one. `first` is the number of the word before the line's
/// first.
pub open spec fn line_word(line: LineView, k: int, first: int) -> WordView {
    if line.is_chinese {
        WordView {
            id: word_id(first + 1 + k),
            bbox: BoundingBox {
                x0: (line.x + k * char_extent(line.height)) as i64,
                y0: line.y as i64,
                x1: (line.x + (k + 1) * char_extent(line.height)) as i64,
                y1: (line.y + line.height) as i64,
            },
            text: seq![line.text[k]],
            confidence: 950,
        }
    } else {
        let words = words_of(line.text);
        WordView {
            id: word_id(first + 1 + k),
            bbox: BoundingBox {
                x0: (line.x + word_offset(words, line.font_size, k)) as i64,
                y0: line.y as i64,
                x1: (line.x + word_offset(words, line.font_size, k) + word_extent(
                    words[k],
                    line.font_size,
                )) as i64,
                y1: (line.y + line.height) as i64,
            },
            text: words[k],
            confidence: 950,
        }
    }
}

/// The number of words of a line.
pub open spec fn line_word_count(line: LineView) -> int {
    if line.is_chinese {
        line.text.len() as int
    } else {
        words_of(line.text).len() as int
    }
}

/// The words of a line.
pub open spec fn line_words(line: LineView, first: int) -> Seq<WordView> {
    Seq::new(line_word_count(line) as nat, |k: int| line_word(line, k, first))
}

/// The line of the text layer for line `line_index` of paragraph
/// `para_index`.
pub open spec fn hocr_line(
    line: LineView,
    para_index: int,
    line_index: int,
    first: int,
) -> HocrLineView {
    HocrLineView {
        id: line_id(para_index, line_index),
        bbox: union_of(word_boxes(line_words(line, first))),
        words: line_words(line, first),
    }
}

/// The number of words in the first `n` of some lines.
pub open spec fn words_before(lines: Seq<LineView>, n: int) -> int
    decreases n,
{
    if n <= 0 {
        0
    } else {
        words_before(lines, n - 1) + line_word_count(lines[n - 1])
    }
}

/// The lines of the text layer for a paragraph.
pub open spec fn hocr_lines(p: ParagraphView, para_index: int, first: int) -> Seq<HocrLineView> {
    Seq::new(
        p.lines.len(),
        |i: int| hocr_line(p.lines[i], para_index, i, first + words_before(p.lines, i)),
    )
}

/// The paragraph of the text layer for paragraph `para_index` of a page:
/// `number` is its number among all paragraphs.
pub open spec fn hocr_paragraph(
    p: ParagraphView,
    para_index: int,
    number: int,
    first: int,
) -> HocrParagraphView {
    HocrParagraphView {
        id: "para_"@ + decimal_text(number as nat),
        bbox: union_of(line_boxes(hocr_lines(p, para_index, first))),
        language: if p.is_chinese {
            "zh"@
        } else {
            "en"@
        },
        lines: hocr_lines(p, para_index, first),
    }
}

/// The number of words in the first `n` of some paragraphs.
pub open spec fn words_in(ps: Seq<ParagraphView>, n: int) -> int
    decreases n,
{
    if n <= 0 {
        0
    } else {
        words_in(ps, n - 1) + words_before(ps[n - 1].lines, ps[n - 1].lines.len() as int)
    }
}

/// The number of lines in the first `n` of some paragraphs.
pub open spec fn lines_in(ps: Seq<ParagraphView>, n: int) -> int
    decreases n,
{
    if n <= 0 {
        0
    } else {
        lines_in(ps, n - 1) + ps[n - 1].lines.len()
    }
}

/// Numbers the pages, paragraphs, lines and words of the text layer.
#[derive(Clone, Copy, Debug, PartialEq, Eq, Structural)]
pub struct HocrGenerator {
    pub page_counter: u32,
    pub paragraph_counter: u32,
    pub line_counter: u32,
    pub word_counter: u32,
}

/// The paragraphs of the text layer for the paragraphs of a page, numbered
/// on from the generator's counters.
pub open spec fn hocr_paragraphs(g: HocrGenerator, ps: Seq<ParagraphView>) -> Seq<
    HocrParagraphView,
> {
    Seq::new(
        ps.len(),
        |i: int|
            hocr_paragraph(
                ps[i],
                i,
                g.paragraph_counter + 1 + i,
                g.word_counter + words_in(ps, i),
            ),
    )
}

/// The page of the text layer for the paragraphs of a page.
pub open spec fn hocr_page(g: HocrGenerator, ps: Seq<ParagraphView>) -> HocrPageView {
    HocrPageView {
        page_number: (g.page_counter + 1) as u32,
        bbox: union_of(paragraph_boxes(hocr_paragraphs(g, ps))),
        paragraphs: hocr_paragraphs(g, ps),
    }
}

/// The generator after it has numbered the elements of a page.
pub open spec fn advanced(g: HocrGenerator, ps: Seq<ParagraphView>) -> HocrGenerator {
    HocrGenerator {
        page_counter: (g.page_counter + 1) as u32,
        paragraph_counter: (g.paragraph_counter + ps.len()) as u32,
        line_counter: (g.line_counter + lines_in(ps, ps.len() as int)) as u32,
        word_counter: (g.word_counter + words_in(ps, ps.len() as int)) as u32,
    }
}

/// Whether the generator has numbers left for the elements of a page.
pub open spec fn has_numbers_for(g: HocrGenerator, ps: Seq<ParagraphView>) -> bool {
    &&& g.page_counter + 1 <= u32::MAX
    &&& g.paragraph_counter + ps.len() <= u32::MAX
    &&& g.line_counter + lines_in(ps, ps.len() as int) <= u32::MAX
    &&& g.word_counter + words_in(ps, ps.len() as int) <= u32::MAX
}

impl HocrGenerator {
    /// A generator that has numbered nothing yet.
    pub fn new() -> (g: HocrGenerator)
        ensures
            g.page_counter == 0,
            g.paragraph_counter == 0,
            g.line_counter == 0,
            g.word_counter == 0,
    {
        HocrGenerator { page_counter: 0, paragraph_counter: 0, line_counter: 0, word_counter: 0 }
    }
}

impl Default for HocrGenerator {
    fn default() -> (g: HocrGenerator)
        ensures
            g.page_counter == 0,
            g.paragraph_counter == 0,
            g.line_counter == 0,
            g.word_counter == 0,
    {
        HocrGenerator::new()
    }
}

/// A generator that has numbered nothing yet.
pub fn create_hocr_generator() -> (g: HocrGenerator)
    ensures
        g.page_counter == 0,
        g.paragraph_counter == 0,
        g.line_counter == 0,
        g.word_counter == 0,
{
    HocrGenerator::new()
}

/// The UTF-8 form of a text has at most four bytes for each character.
pub proof fn lemma_utf8_len(s: Seq<char>)
    ensures
        encode_utf8(s).len() <= 4 * s.len(),
    decreases s.len(),
{
    if s.len() > 0 {
        lemma_utf8_len(s.drop_first());
        assert(encode_scalar(s[0] as u32).len() <= 4);
    }
}

/// The number of characters in the first `k` of some words.
pub open spec fn chars_in(words: Seq<Seq<char>>, k: int) -> int
    decreases k,
{
    if k <= 0 {
        0
    } else {
        chars_in(words, k - 1) + words[k - 1].len()
    }
}

/// The count of the first words does not depend on the words after them.
pub proof fn lemma_chars_in_prefix(words: Seq<Seq<char>>, w: Seq<char>, k: int)
    requires
        0 <= k <= words.len(),
    ensures
        chars_in(words.push(w), k) == chars_in(words, k),
        chars_in(words, k) >= 0,
    decreases k,
{
    if k > 0 {
        lemma_chars_in_prefix(words, w, k - 1);
        assert(words.push(w)[k - 1] == words[k - 1]);
    }
}

/// The words of a text hold no more characters than the text, and there
/// are no more of them than characters.
pub proof fn lemma_words_within(s: Seq<char>)
    ensures
        chars_in(words_done(s), words_done(s).len() as int) + word_open(s).len() <= s.len(),
        words_done(s).len() <= chars_in(words_done(s), words_done(s).len() as int),
        chars_in(words_of(s), words_of(s).len() as int) <= s.len(),
        words_of(s).len() <= chars_in(words_of(s), words_of(s).len() as int),
    decreases s.len(),
{
    if s.len() > 0 {
        let before = s.drop_last();
        lemma_words_within(before);
        let done = words_done(before);
        let open = word_open(before);
        lemma_chars_in_prefix(done, open, done.len() as int);
        assert(done.push(open)[done.len() as int] == open);
    }
    let done = words_done(s);
    let open = word_open(s);
    lemma_chars_in_prefix(done, open, done.len() as int);
    assert(done.push(open)[done.len() as int] == open);
}

/// The estimated width of a word is at most three font sizes for each of
/// its characters.
pub proof fn lemma_word_extent_bound(word: Seq<char>, font_size: int)
    requires
        font_size >= 0,
    ensures
        0 <= word_extent(word, font_size) <= 3 * word.len() * font_size,
        0 <= word_gap(font_size) <= font_size,
{
    lemma_utf8_len(word);
    let b = encode_utf8(word).len() as int;
    let n = word.len() as int;
    assert(0 <= b * font_size * 6 <= 24 * n * font_size) by (nonlinear_arith)
        requires
            0 <= b <= 4 * n,
            font_size >= 0,
    ;
    lemma_trunc_div_bounds(b * font_size * 6, 10);
    let p = b * font_size * 6;
    assert(p / 10 <= 3 * n * font_size) by (nonlinear_arith)
        requires
            0 <= p <= 24 * n * font_size,
    ;
    lemma_trunc_div_bounds(font_size * 3, 10);
    let q = font_size * 3;
    assert(q / 10 <= font_size) by (nonlinear_arith)
        requires
            q == font_size * 3,
            font_size >= 0,
    ;
}

/// A word begins no further from the start of its line than three font
/// sizes for each character and one for each word before it.
pub proof fn lemma_word_offset_bound(words: Seq<Seq<char>>, font_size: int, k: int)
    requires
        font_size >= 0,
        0 <= k <= words.len(),
    ensures
        0 <= word_offset(words, font_size, k) <= (3 * chars_in(words, k) + k) * font_size,
        chars_in(words, k) >= 0,
    decreases k,
{
    if k > 0 {
        lemma_word_offset_bound(words, font_size, k - 1);
        lemma_word_extent_bound(words[k - 1], font_size);
        let a = chars_in(words, k - 1);
        let n = words[k - 1].len() as int;
        assert((3 * (a + n) + k) * font_size == (3 * a + (k - 1)) * font_size + 3 * n * font_size
            + font_size) by (nonlinear_arith);
    }
}

/// The count of characters grows with the number of words counted.
pub proof fn lemma_chars_in_monotonic(words: Seq<Seq<char>>, j: int, k: int)
    requires
        0 <= j <= k <= words.len(),
    ensures
        0 <= chars_in(words, j) <= chars_in(words, k),
    decreases k - j,
{
    if j < k {
        lemma_chars_in_monotonic(words, j, k - 1);
    } else {
        lemma_word_offset_bound(words, 0, j);
    }
}

/// Counts of words are not negative and grow with the lines counted.
pub proof fn lemma_words_before_monotonic(lines: Seq<LineView>, j: int, k: int)
    requires
        0 <= j <= k,
    ensures
        0 <= words_before(lines, j) <= words_before(lines, k),
    decreases k,
{
    if k > 0 {
        if j < k {
            lemma_words_before_monotonic(lines, j, k - 1);
        } else {
            lemma_words_before_monotonic(lines, j - 1, k - 1);
        }
    }
}

/// Counts of words and lines are not negative and grow with the paragraphs
/// counted.
pub proof fn lemma_words_in_monotonic(ps: Seq<ParagraphView>, j: int, k: int)
    requires
        0 <= j <= k,
    ensures
        0 <= words_in(ps, j) <= words_in(ps, k),
        0 <= lines_in(ps, j) <= lines_in(ps, k),
    decreases k,
{
    if k > 0 {
        lemma_words_before_monotonic(ps[k - 1].lines, 0, ps[k - 1].lines.len() as int);
        if j < k {
            lemma_words_in_monotonic(ps, j, k - 1);
        } else {
            lemma_words_in_monotonic(ps, j - 1, k - 1);
        }
    }
}

/// The words of a text: what white space separates.
pub fn split_words(text: &str) -> (words: Vec<Vec<char>>)
    ensures
        words@.map_values(|w: Vec<char>| w@) == words_of(text@),
{
    let chars = string_to_chars(text);
    let mut words: Vec<Vec<char>> = Vec::new();
    let mut open: Vec<char> = Vec::new();
    let mut i: usize = 0;
    assert(words@.map_values(|w: Vec<char>| w@) =~= Seq::<Seq<char>>::empty());
    while i < chars.len()
        invariant
            chars@ == text@,
            i <= chars.len(),
            words@.map_values(|w: Vec<char>| w@) == words_done(chars@.take(i as int)),
            open@ == word_open(chars@.take(i as int)),
        decreases chars.len() - i,
    {
        let c = chars[i];
        proof {
            assert(chars@.take(i + 1).drop_last() == chars@.take(i as int));
            assert(chars@.take(i + 1).last() == c);
        }
        if char_is_whitespace(c) {
            if open.len() > 0 {
                let ghost before = words@.map_values(|w: Vec<char>| w@);
                let ghost w = open@;
                words.push(open);
                assert(words@.map_values(|w: Vec<char>| w@) =~= before.push(w));
                open = Vec::new();
            }
        } else {
            open.push(c);
        }
        i += 1;
    }
    assert(chars@.take(chars.len() as int) == chars@);
    if open.len() > 0 {
        let ghost before = words@.map_values(|w: Vec<char>| w@);
        let ghost w = open@;
        words.push(open);
        assert(words@.map_values(|w: Vec<char>| w@) =~= before.push(w));
    }
    words
}

/// The identifier of the word numbered `number`.
pub fn make_word_id(number: u32) -> (id: String)
    ensures
        id@ == word_id(number as int),
{
    let mut out: Vec<char> = Vec::new();
    push_text(&mut out, "word_");
    push_decimal(&mut out, number as u64);
    assert(out@ =~= "word_"@ + decimal_text(number as nat));
    chars_to_string(&out)
}

impl HocrGenerator {
    /// The smallest box around the words of a line.
    pub fn calculate_line_bbox(&self, words: &Vec<HocrWord>) -> (bbox: BoundingBox)
        ensures
            bbox == union_of(word_boxes(word_views(words@))),
    {
        let ghost boxes = word_boxes(word_views(words@));
        let mut bbox = BoundingBox { x0: 0, y0: 0, x1: 0, y1: 0 };
        let mut i: usize = 0;
        while i < words.len()
            invariant
                i <= words.len(),
                boxes == word_boxes(word_views(words@)),
                bbox == union_of(boxes.take(i as int)),
            decreases words.len() - i,
        {
            proof {
                assert(boxes.take(i + 1).drop_last() == boxes.take(i as int));
                assert(boxes.take(i + 1).last() == words@[i as int].bbox);
            }
            if i == 0 {
                bbox = words[i].bbox;
            } else {
                bbox = merge_boxes(bbox, words[i].bbox);
            }
            i += 1;
        }
        assert(boxes.take(words.len() as int) == boxes);
        bbox
    }

    /// The smallest box around the lines of a paragraph.
    pub fn calculate_paragraph_bbox(&self, lines: &Vec<HocrLine>) -> (bbox: BoundingBox)
        ensures
            bbox == union_of(line_boxes(hocr_line_views(lines@))),
    {
        let ghost boxes = line_boxes(hocr_line_views(lines@));
        let mut bbox = BoundingBox { x0: 0, y0: 0, x1: 0, y1: 0 };
        let mut i: usize = 0;
        while i < lines.len()
            invariant
                i <= lines.len(),
                boxes == line_boxes(hocr_line_views(lines@)),
                bbox == union_of(boxes.take(i as int)),
            decreases lines.len() - i,
        {
            proof {
                assert(boxes.take(i + 1).drop_last() == boxes.take(i as int));
                assert(boxes.take(i + 1).last() == lines@[i as int].bbox);
            }
            if i == 0 {
                bbox = lines[i].bbox;
            } else {
                bbox = merge_boxes(bbox, lines[i].bbox);
            }
            i += 1;
        }
        assert(boxes.take(lines.len() as int) == boxes);
        bbox
    }

    /// The smallest box around the paragraphs of a page.
    pub fn calculate_page_bbox(&self, paragraphs: &Vec<HocrParagraph>) -> (bbox: BoundingBox)
        ensures
            bbox == union_of(paragraph_boxes(hocr_paragraph_views(paragraphs@))),
    {
        let ghost boxes = paragraph_boxes(hocr_paragraph_views(paragraphs@));
        let mut bbox = BoundingBox { x0: 0, y0: 0, x1: 0, y1: 0 };
        let mut i: usize = 0;
        while i < paragraphs.len()
            invariant
                i <= paragraphs.len(),
                boxes == paragraph_boxes(hocr_paragraph_views(paragraphs@)),
                bbox == union_of(boxes.take(i as int)),
            decreases paragraphs.len() - i,
        {
            proof {
                assert(boxes.take(i + 1).drop_last() == boxes.take(i as int));
                assert(boxes.take(i + 1).last() == paragraphs@[i as int].bbox);
            }
            if i == 0 {
                bbox = paragraphs[i].bbox;
            } else {
                bbox = merge_boxes(bbox, paragraphs[i].bbox);
            }
            i += 1;
        }
        assert(boxes.take(paragraphs.len() as int) == boxes);
        bbox
    }

    /// The words of a line with their estimated boxes: every character of a
    /// Chinese line, every word of a Latin one.
    pub fn extract_words_from_line(&mut self, line: &FormattedLine) -> (result: Result<
        Vec<HocrWord>,
        HocrError,
    >)
        requires
            line@.ready(),
        ensures
            match result {
                Ok(words) => {
                    &&& old(self).word_counter + line_word_count(line@) <= u32::MAX
                    &&& word_views(words@) == line_words(line@, old(self).word_counter as int)
                    &&& *final(self) == (HocrGenerator {
                        word_counter: (old(self).word_counter + line_word_count(line@)) as u32,
                        ..*old(self)
                    })
                },
                Err(_) => {
                    &&& old(self).word_counter + line_word_count(line@) > u32::MAX
                    &&& *final(self) == *old(self)
                },
            },
    {
        let ghost l = line@;
        let ghost first = self.word_counter as int;
        let mut words: Vec<HocrWord> = Vec::new();
        if line.is_chinese {
            let chars = string_to_chars(line.text.as_str());
            let n = chars.len();
            if n > (u32::MAX - self.word_counter) as usize {
                return Err(HocrError::CounterExhausted);
            }
            let extent: i64 = div_trunc(line.height * 8, 10);
            proof {
                lemma_trunc_div_bounds(line.height * 8, 10);
            }
            let mut k: usize = 0;
            while k < n
                invariant
                    l == line@,
                    l.ready(),
                    l.is_chinese,
                    chars@ == l.text,
                    n == chars.len(),
                    first + n <= u32::MAX,
                    first == old(self).word_counter,
                    extent == char_extent(l.height),
                    0 <= extent <= 160_000_000_000,
                    k <= n,
                    *self == (HocrGenerator { word_counter: (first + k) as u32, ..*old(self) }),
                    words@.len() == k,
                    forall|j: int| 0 <= j < k ==> (#[trigger] words@[j])@ == line_word(l, j, first),
                decreases n - k,
            {
                self.word_counter = self.word_counter + 1;
                proof {
                    assert(0 <= k * extent <= 1_000_000 * 160_000_000_000) by (nonlinear_arith)
                        requires
                            0 <= k <= 1_000_000,
                            0 <= extent <= 160_000_000_000,
                    ;
                    assert((k + 1) * extent == k * extent + extent) by (nonlinear_arith);
                }
                let x0: i64 = line.x + (k as i64) * extent;
                let one: Vec<char> = vec![chars[k]];
                assert(one@ == seq![chars@[k as int]]);
                let word = HocrWord {
                    id: make_word_id(self.word_counter),
                    bbox: BoundingBox {
                        x0,
                        y0: line.y,
                        x1: x0 + extent,
                        y1: line.y + line.height,
                    },
                    text: chars_to_string(&one),
                    confidence: 950,
                };
                assert(word@ == line_word(l, k as int, first));
                words.push(word);
                k += 1;
            }
            assert(word_views(words@) =~= line_words(l, first));
        } else {
            let pieces = split_words(line.text.as_str());
            let ghost ws = words_of(l.text);
            let n = pieces.len();
            proof {
                lemma_words_within(l.text);
                assert(ws.len() == n);
            }
            if n > (u32::MAX - self.word_counter) as usize {
                return Err(HocrError::CounterExhausted);
            }
            let gap: i64 = div_trunc(line.font_size * 3, 10);
            proof {
                lemma_trunc_div_bounds(line.font_size * 3, 10);
            }
            let mut offset: i64 = 0;
            let mut k: usize = 0;
            while k < n
                invariant
                    l == line@,
                    l.ready(),
                    !l.is_chinese,
                    ws == words_of(l.text),
                    pieces@.map_values(|w: Vec<char>| w@) == ws,
                    n == pieces.len(),
                    n == ws.len(),
                    chars_in(ws, n as int) <= l.text.len(),
                    n <= chars_in(ws, n as int),
                    first + n <= u32::MAX,
                    first == old(self).word_counter,
                    gap == word_gap(l.font_size),
                    k <= n,
                    offset == word_offset(ws, l.font_size, k as int),
                    *self == (HocrGenerator { word_counter: (first + k) as u32, ..*old(self) }),
                    words@.len() == k,
                    forall|j: int| 0 <= j < k ==> (#[trigger] words@[j])@ == line_word(l, j, first),
                decreases n - k,
            {
                self.word_counter = self.word_counter + 1;
                let text = chars_to_string(&pieces[k]);
                assert(ws[k as int] == pieces@[k as int]@);
                let bytes: usize = text.as_str().len();
                proof {
                    let fs = l.font_size;
                    lemma_utf8_len(ws[k as int]);
                    lemma_word_extent_bound(ws[k as int], fs);
                    lemma_word_offset_bound(ws, fs, k as int);
                    lemma_word_offset_bound(ws, fs, k + 1);
                    lemma_chars_in_monotonic(ws, k as int, n as int);
                    lemma_chars_in_monotonic(ws, k + 1, n as int);
                    let a = chars_in(ws, k as int);
                    let b = chars_in(ws, k + 1);
                    assert((3 * a + k) * fs <= 4_000_000 * 20_000_000) by (nonlinear_arith)
                        requires
                            0 <= a <= 1_000_000,
                            0 <= k <= 1_000_000,
                            0 <= fs <= 20_000_000,
                    ;
                    assert((3 * b + (k + 1)) * fs <= 4_000_001 * 20_000_000) by (nonlinear_arith)
                        requires
                            0 <= b <= 1_000_000,
                            0 <= k + 1 <= 1_000_000,
                            0 <= fs <= 20_000_000,
                    ;
                    assert(ws[k as int].len() <= b);
                    let bl = bytes as int;
                    assert(0 <= bl * fs <= 4_000_000 * 20_000_000) by (nonlinear_arith)
                        requires
                            0 <= bl <= 4_000_000,
                            0 <= fs <= 20_000_000,
                    ;
                    lemma_trunc_div_bounds(bl * fs * 6, 10);
                }
                let extent: i64 = div_trunc((bytes as i64) * line.font_size * 6, 10);
                let x0: i64 = line.x + offset;
                let word = HocrWord {
                    id: make_word_id(self.word_counter),
                    bbox: BoundingBox {
                        x0,
                        y0: line.y,
                        x1: x0 + extent,
                        y1: line.y + line.height,
                    },
                    text,
                    confidence: 950,
                };
                assert(word@ == line_word(l, k as int, first));
                words.push(word);
                offset = offset + extent + gap;
                k += 1;
            }
            assert(word_views(words@) =~= line_words(l, first));
        }
        Ok(words)
    }
}

/// The identifier of line `line_index` of paragraph `para_index`.
pub open spec fn line_id(para_index: int, line_index: int) -> Seq<char> {
    "line_"@ + decimal_text(para_index as nat) + seq!['_'] + decimal_text(line_index as nat)
}

impl HocrGenerator {
    /// The line of the text layer for a line of a paragraph.
    pub fn convert_line(&mut self, line: &FormattedLine, para_index: usize, line_index: usize) -> (result:
        Result<HocrLine, HocrError>)
        requires
            line@.ready(),
        ensures
            match result {
                Ok(l) => {
                    &&& old(self).line_counter + 1 <= u32::MAX
                    &&& old(self).word_counter + line_word_count(line@) <= u32::MAX
                    &&& l@ == hocr_line(
                        line@,
                        para_index as int,
                        line_index as int,
                        old(self).word_counter as int,
                    )
                    &&& *final(self) == (HocrGenerator {
                        line_counter: (old(self).line_counter + 1) as u32,
                        word_counter: (old(self).word_counter + line_word_count(line@)) as u32,
                        ..*old(self)
                    })
                },
                Err(_) => {
                    &&& (old(self).line_counter + 1 > u32::MAX || old(self).word_counter
                        + line_word_count(line@) > u32::MAX)
                    &&& *final(self) == *old(self)
                },
            },
    {
        if self.line_counter == u32::MAX {
            return Err(HocrError::CounterExhausted);
        }
        let words = match self.extract_words_from_line(line) {
            Ok(w) => w,
            Err(e) => {
                return Err(e);
            },
        };
        self.line_counter = self.line_counter + 1;
        let mut id: Vec<char> = Vec::new();
        push_text(&mut id, "line_");
        push_decimal(&mut id, para_index as u64);
        id.push('_');
        push_decimal(&mut id, line_index as u64);
        assert(id@ =~= line_id(para_index as int, line_index as int));
        let bbox = self.calculate_line_bbox(&words);
        Ok(HocrLine { id: chars_to_string(&id), bbox, words })
    }

    /// The paragraph of the text layer for a paragraph of a page.
    pub fn convert_paragraph(&mut self, paragraph: &FormattedParagraph, para_index: usize) -> (result:
        Result<HocrParagraph, HocrError>)
        requires
            paragraph@.placed(),
        ensures
            match result {
                Ok(p) => {
                    &&& old(self).paragraph_counter + 1 <= u32::MAX
                    &&& old(self).line_counter + paragraph@.lines.len() <= u32::MAX
                    &&& old(self).word_counter + words_before(
                        paragraph@.lines,
                        paragraph@.lines.len() as int,
                    ) <= u32::MAX
                    &&& p@ == hocr_paragraph(
                        paragraph@,
                        para_index as int,
                        old(self).paragraph_counter + 1,
                        old(self).word_counter as int,
                    )
                    &&& *final(self) == (HocrGenerator {
                        paragraph_counter: (old(self).paragraph_counter + 1) as u32,
                        line_counter: (old(self).line_counter + paragraph@.lines.len()) as u32,
                        word_counter: (old(self).word_counter + words_before(
                            paragraph@.lines,
                            paragraph@.lines.len() as int,
                        )) as u32,
                        ..*old(self)
                    })
                },
                Err(_) => {
                    ||| old(self).paragraph_counter + 1 > u32::MAX
                    ||| old(self).line_counter + paragraph@.lines.len() > u32::MAX
                    ||| old(self).word_counter + words_before(
                        paragraph@.lines,
                        paragraph@.lines.len() as int,
                    ) > u32::MAX
                },
            },
    {
        let ghost pv = paragraph@;
        let ghost first = self.word_counter as int;
        if self.paragraph_counter == u32::MAX {
            return Err(HocrError::CounterExhausted);
        }
        self.paragraph_counter = self.paragraph_counter + 1;
        let mut id: Vec<char> = Vec::new();
        push_text(&mut id, "para_");
        push_decimal(&mut id, self.paragraph_counter as u64);
        assert(id@ =~= "para_"@ + decimal_text((old(self).paragraph_counter + 1) as nat));
        let mut lines: Vec<HocrLine> = Vec::new();
        let n = paragraph.lines.len();
        let mut i: usize = 0;
        while i < n
            invariant
                pv == paragraph@,
                pv.placed(),
                n == paragraph.lines.len(),
                i <= n,
                first == old(self).word_counter,
                old(self).paragraph_counter + 1 <= u32::MAX,
                old(self).line_counter + i <= u32::MAX,
                first + words_before(pv.lines, i as int) <= u32::MAX,
                *self == (HocrGenerator {
                    paragraph_counter: (old(self).paragraph_counter + 1) as u32,
                    line_counter: (old(self).line_counter + i) as u32,
                    word_counter: (first + words_before(pv.lines, i as int)) as u32,
                    ..*old(self)
                }),
                lines@.len() == i,
                forall|j: int|
                    0 <= j < i ==> (#[trigger] lines@[j])@ == hocr_line(
                        pv.lines[j],
                        para_index as int,
                        j,
                        first + words_before(pv.lines, j),
                    ),
            decreases n - i,
        {
            assert(pv.lines[i as int] == paragraph.lines@[i as int]@);
            proof {
                lemma_words_before_monotonic(pv.lines, i + 1, n as int);
                lemma_words_before_monotonic(pv.lines, 0, i as int);
            }
            match self.convert_line(&paragraph.lines[i], para_index, i) {
                Ok(l) => {
                    lines.push(l);
                },
                Err(e) => {
                    return Err(e);
                },
            }
            i += 1;
        }
        assert(hocr_line_views(lines@) =~= hocr_lines(pv, para_index as int, first));
        let bbox = self.calculate_paragraph_bbox(&lines);
        let language = if paragraph.is_chinese {
            "zh".to_owned()
        } else {
            "en".to_owned()
        };
        Ok(HocrParagraph { id: chars_to_string(&id), bbox, language, lines })
    }

    /// The page of the text layer for the paragraphs of a page.
    pub fn generate_hocr(&mut self, paragraphs: &Vec<FormattedParagraph>) -> (result: Result<
        HocrPage,
        HocrError,
    >)
        requires
            forall|i: int| 0 <= i < paragraphs@.len() ==> (#[trigger] paragraphs@[i])@.placed(),
        ensures
            match result {
                Ok(page) => {
                    &&& has_numbers_for(*old(self), paragraph_views(paragraphs@))
                    &&& page@ == hocr_page(*old(self), paragraph_views(paragraphs@))
                    &&& *final(self) == advanced(*old(self), paragraph_views(paragraphs@))
                },
                Err(_) => !has_numbers_for(*old(self), paragraph_views(paragraphs@)),
            },
    {
        let ghost ps = paragraph_views(paragraphs@);
        let ghost g = *self;
        if self.page_counter == u32::MAX {
            return Err(HocrError::CounterExhausted);
        }
        self.page_counter = self.page_counter + 1;
        let mut out: Vec<HocrParagraph> = Vec::new();
        let n = paragraphs.len();
        let mut i: usize = 0;
        while i < n
            invariant
                ps == paragraph_views(paragraphs@),
                g == *old(self),
                forall|k: int| 0 <= k < paragraphs@.len() ==> (#[trigger] paragraphs@[k])@.placed(),
                n == paragraphs.len(),
                i <= n,
                g.page_counter + 1 <= u32::MAX,
                g.paragraph_counter + i <= u32::MAX,
                g.line_counter + lines_in(ps, i as int) <= u32::MAX,
                g.word_counter + words_in(ps, i as int) <= u32::MAX,
                *self == (HocrGenerator {
                    page_counter: (g.page_counter + 1) as u32,
                    paragraph_counter: (g.paragraph_counter + i) as u32,
                    line_counter: (g.line_counter + lines_in(ps, i as int)) as u32,
                    word_counter: (g.word_counter + words_in(ps, i as int)) as u32,
                }),
                out@.len() == i,
                forall|j: int|
                    0 <= j < i ==> (#[trigger] out@[j])@ == hocr_paragraph(
                        ps[j],
                        j,
                        g.paragraph_counter + 1 + j,
                        g.word_counter + words_in(ps, j),
                    ),
            decreases n - i,
        {
            assert(ps[i as int] == paragraphs@[i as int]@);
            proof {
                lemma_words_in_monotonic(ps, i + 1, n as int);
                lemma_words_in_monotonic(ps, 0, i as int);
            }
            match self.convert_paragraph(&paragraphs[i], i) {
                Ok(p) => {
                    out.push(p);
                },
                Err(e) => {
                    return Err(e);
                },
            }
            i += 1;
        }
        assert(hocr_paragraph_views(out@) =~= hocr_paragraphs(g, ps));
        let bbox = self.calculate_page_bbox(&out);
        Ok(HocrPage { page_number: self.page_counter, bbox, paragraphs: out })
    }
}

/// The four numbers of a box, separated by spaces.
pub open spec fn box_text(b: BoundingBox) -> Seq<char> {
    thousandths_text(b.x0 as int) + seq![' '] + thousandths_text(b.y0 as int) + seq![' ']
        + thousandths_text(b.x1 as int) + seq![' '] + thousandths_text(b.y1 as int)
}

/// The markup of a word.
pub open spec fn word_html(w: WordView) -> Seq<char> {
    "<span class='ocrx_word' id='"@ + w.id + "' title='bbox "@ + box_text(w.bbox) + "; "@
        + thousandths_text(w.confidence) + "'>"@ + w.text + "</span>"@
}

/// The markup of the first `n` of some words, one after the other.
pub open spec fn words_html(words: Seq<WordView>, n: int) -> Seq<char>
    decreases n,
{
    if n <= 0 {
        Seq::empty()
    } else {
        words_html(words, n - 1) + word_html(words[n - 1])
    }
}

/// The tag that opens the markup of a line.
pub open spec fn line_open(l: HocrLineView) -> Seq<char> {
    "    <span class='ocr_line' id='"@ + l.id + "' title='bbox "@ + box_text(l.bbox) + "'>"@
}

/// The markup of a line.
pub open spec fn line_html(l: HocrLineView) -> Seq<char> {
    line_open(l) + words_html(l.words, l.words.len() as int) + "</span>\n"@
}

/// The markup of the first `n` of some lines, one after the other.
pub open spec fn lines_html(lines: Seq<HocrLineView>, n: int) -> Seq<char>
    decreases n,
{
    if n <= 0 {
        Seq::empty()
    } else {
        lines_html(lines, n - 1) + line_html(lines[n - 1])
    }
}

/// The tag that opens the markup of a paragraph.
pub open spec fn paragraph_open(p: HocrParagraphView) -> Seq<char> {
    "  <div class='ocr_par' id='"@ + p.id + "' title='bbox "@ + box_text(p.bbox) + "; lang "@
        + p.language + "'>\n"@
}

/// The markup of a paragraph.
pub open spec fn paragraph_html(p: HocrParagraphView) -> Seq<char> {
    paragraph_open(p) + lines_html(p.lines, p.lines.len() as int) + "  </div>\n"@
}

/// The markup of the first `n` of some paragraphs, one after the other.
pub open spec fn paragraphs_html(ps: Seq<HocrParagraphView>, n: int) -> Seq<char>
    decreases n,
{
    if n <= 0 {
        Seq::empty()
    } else {
        paragraphs_html(ps, n - 1) + paragraph_html(ps[n - 1])
    }
}

/// The tag that opens the markup of a page.
pub open spec fn page_open(page: HocrPageView) -> Seq<char> {
    "<div class='ocr_page' id='page_"@ + decimal_text(page.page_number as nat)
        + "' title='bbox "@ + box_text(page.bbox) + "'>\n"@
}

/// The markup of a page.
pub open spec fn page_html(page: HocrPageView) -> Seq<char> {
    page_open(page) + paragraphs_html(page.paragraphs, page.paragraphs.len() as int)
        + "</div>\n"@
}

/// The markup of the first `n` of some pages, one after the other.
pub open spec fn pages_html(pages: Seq<HocrPageView>, n: int) -> Seq<char>
    decreases n,
{
    if n <= 0 {
        Seq::empty()
    } else {
        pages_html(pages, n - 1) + page_html(pages[n - 1])
    }
}

/// What every document of the text layer begins with.
pub open spec fn html_header() -> Seq<char> {
    "<!DOCTYPE html PUBLIC \"-//W3C//DTD XHTML 1.0 Transitional//EN\" \"http://www.w3.org/TR/xhtml1/DTD/xhtml1-transitional.dtd\">\n<html xmlns=\"http://www.w3.org/1999/xhtml\" xml:lang=\"en\" lang=\"en\">\n<head>\n<meta http-equiv=\"Content-Type\" content=\"text/html;charset=utf-8\" />\n<meta name=\"ocr-system\" content=\"cbeta-pdf-creator 1.0\" />\n<meta name=\"ocr-capabilities\" content=\"ocr_page ocr_carea ocr_par ocr_line ocr_word\" />\n<title>OCR Output</title>\n</head>\n<body>\n"@
}

/// The document of the text layer for some pages.
pub open spec fn document_html(pages: Seq<HocrPageView>) -> Seq<char> {
    html_header() + pages_html(pages, pages.len() as int) + "</body>\n</html>"@
}

/// Appending is associative.
pub proof fn lemma_append_assoc(a: Seq<char>, b: Seq<char>, c: Seq<char>)
    ensures
        (a + b) + c == a + (b + c),
{
    assert((a + b) + c =~= a + (b + c));
}

/// Appending three texts one by one appends what they make together.
pub proof fn lemma_append_three(a: Seq<char>, b: Seq<char>, c: Seq<char>, d: Seq<char>)
    ensures
        ((a + b) + c) + d == a + ((b + c) + d),
{
    assert(((a + b) + c) + d =~= a + ((b + c) + d));
}

/// Appends the four numbers of a box.
pub fn push_box(out: &mut Vec<char>, b: &BoundingBox)
    ensures
        final(out)@ == old(out)@ + box_text(*b),
{
    push_thousandths(out, b.x0);
    out.push(' ');
    push_thousandths(out, b.y0);
    out.push(' ');
    push_thousandths(out, b.x1);
    out.push(' ');
    push_thousandths(out, b.y1);
    assert(out@ =~= old(out)@ + box_text(*b));
}

/// Appends the markup of a word.
pub fn push_word_html(out: &mut Vec<char>, word: &HocrWord)
    ensures
        final(out)@ == old(out)@ + word_html(word@),
{
    push_text(out, "<span class='ocrx_word' id='");
    push_text(out, word.id.as_str());
    push_text(out, "' title='bbox ");
    push_box(out, &word.bbox);
    push_text(out, "; ");
    push_thousandths(out, word.confidence);
    push_text(out, "'>");
    push_text(out, word.text.as_str());
    push_text(out, "</span>");
    assert(out@ =~= old(out)@ + word_html(word@));
}

/// Appends the tag that opens the markup of a line.
pub fn push_line_open(out: &mut Vec<char>, line: &HocrLine)
    ensures
        final(out)@ == old(out)@ + line_open(line@),
{
    push_text(out, "    <span class='ocr_line' id='");
    push_text(out, line.id.as_str());
    push_text(out, "' title='bbox ");
    push_box(out, &line.bbox);
    push_text(out, "'>");
    assert(out@ =~= old(out)@ + line_open(line@));
}

/// Appends the markup of a line.
pub fn push_line_html(out: &mut Vec<char>, line: &HocrLine)
    ensures
        final(out)@ == old(out)@ + line_html(line@),
{
    push_line_open(out, line);
    let ghost head = out@;
    let ghost ws = word_views(line.words@);
    let mut i: usize = 0;
    assert(words_html(ws, 0) =~= Seq::<char>::empty());
    assert(out@ =~= head + words_html(ws, 0));
    while i < line.words.len()
        invariant
            i <= line.words.len(),
            ws == word_views(line.words@),
            out@ == head + words_html(ws, i as int),
        decreases line.words.len() - i,
    {
        assert(ws[i as int] == line.words@[i as int]@);
        let ghost before = words_html(ws, i as int);
        push_word_html(out, &line.words[i]);
        assert(words_html(ws, i + 1) == before + word_html(ws[i as int]));
        proof {
            lemma_append_assoc(head, before, word_html(ws[i as int]));
        }
        i += 1;
    }
    let ghost body = words_html(ws, line.words.len() as int);
    push_text(out, "</span>\n");
    proof {
        lemma_append_three(old(out)@, line_open(line@), body, "</span>\n"@);
    }
}

/// Appends the tag that opens the markup of a paragraph.
pub fn push_paragraph_open(out: &mut Vec<char>, paragraph: &HocrParagraph)
    ensures
        final(out)@ == old(out)@ + paragraph_open(paragraph@),
{
    push_text(out, "  <div class='ocr_par' id='");
    push_text(out, paragraph.id.as_str());
    push_text(out, "' title='bbox ");
    push_box(out, &paragraph.bbox);
    push_text(out, "; lang ");
    push_text(out, paragraph.language.as_str());
    push_text(out, "'>\n");
    assert(out@ =~= old(out)@ + paragraph_open(paragraph@));
}

/// Appends the markup of a paragraph.
pub fn push_paragraph_html(out: &mut Vec<char>, paragraph: &HocrParagraph)
    ensures
        final(out)@ == old(out)@ + paragraph_html(paragraph@),
{
    push_paragraph_open(out, paragraph);
    let ghost head = out@;
    let ghost ls = hocr_line_views(paragraph.lines@);
    let mut i: usize = 0;
    assert(lines_html(ls, 0) =~= Seq::<char>::empty());
    assert(out@ =~= head + lines_html(ls, 0));
    while i < paragraph.lines.len()
        invariant
            i <= paragraph.lines.len(),
            ls == hocr_line_views(paragraph.lines@),
            out@ == head + lines_html(ls, i as int),
        decreases paragraph.lines.len() - i,
    {
        assert(ls[i as int] == paragraph.lines@[i as int]@);
        let ghost before = lines_html(ls, i as int);
        push_line_html(out, &paragraph.lines[i]);
        assert(lines_html(ls, i + 1) == before + line_html(ls[i as int]));
        proof {
            lemma_append_assoc(head, before, line_html(ls[i as int]));
        }
        i += 1;
    }
    let ghost body = lines_html(ls, paragraph.lines.len() as int);
    push_text(out, "  </div>\n");
    proof {
        lemma_append_three(old(out)@, paragraph_open(paragraph@), body, "  </div>\n"@);
    }
}

/// Appends the tag that opens the markup of a page.
pub fn push_page_open(out: &mut Vec<char>, page: &HocrPage)
    ensures
        final(out)@ == old(out)@ + page_open(page@),
{
    push_text(out, "<div class='ocr_page' id='page_");
    push_decimal(out, page.page_number as u64);
    push_text(out, "' title='bbox ");
    push_box(out, &page.bbox);
    push_text(out, "'>\n");
    assert(out@ =~= old(out)@ + page_open(page@));
}

/// Appends the markup of a page.
pub fn push_page_html(out: &mut Vec<char>, page: &HocrPage)
    ensures
        final(out)@ == old(out)@ + page_html(page@),
{
    push_page_open(out, page);
    let ghost head = out@;
    let ghost ps = hocr_paragraph_views(page.paragraphs@);
    let mut i: usize = 0;
    assert(paragraphs_html(ps, 0) =~= Seq::<char>::empty());
    assert(out@ =~= head + paragraphs_html(ps, 0));
    while i < page.paragraphs.len()
        invariant
            i <= page.paragraphs.len(),
            ps == hocr_paragraph_views(page.paragraphs@),
            out@ == head + paragraphs_html(ps, i as int),
        decreases page.paragraphs.len() - i,
    {
        assert(ps[i as int] == page.paragraphs@[i as int]@);
        let ghost before = paragraphs_html(ps, i as int);
        push_paragraph_html(out, &page.paragraphs[i]);
        assert(paragraphs_html(ps, i + 1) == before + paragraph_html(ps[i as int]));
        proof {
            lemma_append_assoc(head, before, paragraph_html(ps[i as int]));
        }
        i += 1;
    }
    let ghost body = paragraphs_html(ps, page.paragraphs.len() as int);
    push_text(out, "</div>\n");
    proof {
        lemma_append_three(old(out)@, page_open(page@), body, "</div>\n"@);
    }
}

impl HocrGenerator {
    /// The markup of a word.
    pub fn generate_word_html(&self, word: &HocrWord) -> (html: String)
        ensures
            html@ == word_html(word@),
    {
        let mut out: Vec<char> = Vec::new();
        push_word_html(&mut out, word);
        assert(out@ =~= word_html(word@));
        chars_to_string(&out)
    }

    /// The markup of a line.
    pub fn generate_line_html(&self, line: &HocrLine) -> (html: String)
        ensures
            html@ == line_html(line@),
    {
        let mut out: Vec<char> = Vec::new();
        push_line_html(&mut out, line);
        assert(out@ =~= line_html(line@));
        chars_to_string(&out)
    }

    /// The markup of a paragraph.
    pub fn generate_paragraph_html(&self, paragraph: &HocrParagraph) -> (html: String)
        ensures
            html@ == paragraph_html(paragraph@),
    {
        let mut out: Vec<char> = Vec::new();
        push_paragraph_html(&mut out, paragraph);
        assert(out@ =~= paragraph_html(paragraph@));
        chars_to_string(&out)
    }

    /// The markup of a page.
    pub fn generate_page_html(&self, page: &HocrPage) -> (html: String)
        ensures
            html@ == page_html(page@),
    {
        let mut out: Vec<char> = Vec::new();
        push_page_html(&mut out, page);
        assert(out@ =~= page_html(page@));
        chars_to_string(&out)
    }

    /// The document of the text layer for some pages.
    pub fn generate_hocr_html(&self, pages: &Vec<HocrPage>) -> (html: String)
        ensures
            html@ == document_html(hocr_page_views(pages@)),
    {
        let ghost ps = hocr_page_views(pages@);
        let mut out: Vec<char> = Vec::new();
        push_text(
            &mut out,
            "<!DOCTYPE html PUBLIC \"-//W3C//DTD XHTML 1.0 Transitional//EN\" \"http://www.w3.org/TR/xhtml1/DTD/xhtml1-transitional.dtd\">\n<html xmlns=\"http://www.w3.org/1999/xhtml\" xml:lang=\"en\" lang=\"en\">\n<head>\n<meta http-equiv=\"Content-Type\" content=\"text/html;charset=utf-8\" />\n<meta name=\"ocr-system\" content=\"cbeta-pdf-creator 1.0\" />\n<meta name=\"ocr-capabilities\" content=\"ocr_page ocr_carea ocr_par ocr_line ocr_word\" />\n<title>OCR Output</title>\n</head>\n<body>\n",
        );
        let ghost head = out@;
        assert(head =~= html_header());
        let mut i: usize = 0;
        assert(pages_html(ps, 0) =~= Seq::<char>::empty());
        assert(out@ =~= head + pages_html(ps, 0));
        while i < pages.len()
            invariant
                i <= pages.len(),
                ps == hocr_page_views(pages@),
                out@ == head + pages_html(ps, i as int),
            decreases pages.len() - i,
        {
            assert(ps[i as int] == pages@[i as int]@);
            let ghost before = pages_html(ps, i as int);
            push_page_html(&mut out, &pages[i]);
            assert(pages_html(ps, i + 1) == before + page_html(ps[i as int]));
            proof {
            lemma_append_assoc(head, before, page_html(ps[i as int]));
        }
            i += 1;
        }
        push_text(&mut out, "</body>\n</html>");
        chars_to_string(&out)
    }
}

} // verus!
