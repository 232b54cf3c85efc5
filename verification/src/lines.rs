//! The lines and paragraphs that the composer produces.

use crate::compose::composed;
use crate::fonts::FontContext;
use crate::justify::adjustment_ratio;
use crate::tokens::{
    count_words, hyphen_at_end, lemma_counts_bounded, lemma_range_width_fits, supported, TextToken,
    Token, token_views, tokens_chars, tokens_end_with_hyphen, tokens_text, tokens_to_text,
    tokens_width,
};
use crate::units::{MAX_LENGTH, MAX_TEXT_CHARS};
use vstd::prelude::*;

verus! {

/// What justification did to one space of a line.
#[derive(Debug, Clone, Copy)]
pub struct SpaceAdjustment {
    /// The character position of the space in the line's text.
    pub position: usize,
    /// The width of an unadjusted space.
    pub base_width: i64,
    /// The width that the space was given.
    pub adjusted_width: i64,
    /// The change as a fraction of the base width, in thousandths.
    pub adjustment_ratio: i64,
}

/// A line of a composed paragraph.
#[derive(Debug, Clone)]
pub struct FormattedLine {
    pub text: String,
    pub x: i64,
    pub y: i64,
    pub width: i64,
    pub height: i64,
    pub is_chinese: bool,
    pub font_size: i64,
    /// The baseline, relative to the paragraph's origin.
    pub baseline: i64,
    pub tokens: Vec<TextToken>,
    pub space_adjustments: Vec<SpaceAdjustment>,
    pub is_justified: bool,
    /// Whether the line ended with a hyphen when it was composed.
    pub hyphenated: bool,
}

/// What a line is, as a mathematical value.
pub struct LineView {
    pub text: Seq<char>,
    pub x: int,
    pub y: int,
    pub width: int,
    pub height: int,
    pub is_chinese: bool,
    pub font_size: int,
    pub baseline: int,
    pub tokens: Seq<Token>,
    pub space_adjustments: Seq<SpaceAdjustment>,
    pub is_justified: bool,
    pub hyphenated: bool,
}

impl View for FormattedLine {
    type V = LineView;

    open spec fn view(&self) -> LineView {
        LineView {
            text: self.text@,
            x: self.x as int,
            y: self.y as int,
            width: self.width as int,
            height: self.height as int,
            is_chinese: self.is_chinese,
            font_size: self.font_size as int,
            baseline: self.baseline as int,
            tokens: token_views(self.tokens@),
            space_adjustments: self.space_adjustments@,
            is_justified: self.is_justified,
            hyphenated: self.hyphenated,
        }
    }
}

/// The values of a sequence of lines.
pub open spec fn line_views(lines: Seq<FormattedLine>) -> Seq<LineView> {
    lines.map_values(|l: FormattedLine| l@)
}

impl FormattedLine {
    /// The text that the line's tokens show.
    pub fn tokens_to_string(&self) -> (text: String)
        ensures
            text@ == tokens_text(self@.tokens),
    {
        tokens_to_text(&self.tokens)
    }

    /// The number of word tokens on the line.
    pub fn word_count(&self) -> (n: usize)
        ensures
            n == count_words(self@.tokens),
    {
        let ghost ts = token_views(self.tokens@);
        let mut n: usize = 0;
        let mut i: usize = 0;
        while i < self.tokens.len()
            invariant
                i <= self.tokens.len(),
                ts == token_views(self.tokens@),
                n == count_words(ts.take(i as int)),
                n <= i,
            decreases self.tokens.len() - i,
        {
            proof {
                assert(ts.take(i + 1).drop_last() == ts.take(i as int));
                assert(ts.take(i + 1).last() == self.tokens@[i as int]@);
            }
            match &self.tokens[i] {
                TextToken::Word(_) => {
                    n += 1;
                },
                _ => {},
            }
            i += 1;
        }
        assert(ts.take(self.tokens.len() as int) == ts);
        n
    }

    /// Whether the last token that is not a space is a hyphen.
    pub fn ends_with_hyphen(&self) -> (r: bool)
        ensures
            r == hyphen_at_end(self@.tokens),
    {
        tokens_end_with_hyphen(&self.tokens)
    }
}

/// A composed paragraph.
#[derive(Debug, Clone)]
pub struct FormattedParagraph {
    pub lines: Vec<FormattedLine>,
    pub x: i64,
    pub y: i64,
    pub width: i64,
    pub height: i64,
    pub is_chinese: bool,
    pub font_size: i64,
    /// The line spacing multiplier, in thousandths.
    pub line_spacing: i64,
    /// The distance from one baseline to the next.
    pub leading: i64,
}

/// What a paragraph is, as a mathematical value.
pub struct ParagraphView {
    pub lines: Seq<LineView>,
    pub x: int,
    pub y: int,
    pub width: int,
    pub height: int,
    pub is_chinese: bool,
    pub font_size: int,
    pub line_spacing: int,
    pub leading: int,
}

impl View for FormattedParagraph {
    type V = ParagraphView;

    open spec fn view(&self) -> ParagraphView {
        ParagraphView {
            lines: line_views(self.lines@),
            x: self.x as int,
            y: self.y as int,
            width: self.width as int,
            height: self.height as int,
            is_chinese: self.is_chinese,
            font_size: self.font_size as int,
            line_spacing: self.line_spacing as int,
            leading: self.leading as int,
        }
    }
}

/// The values of a sequence of paragraphs.
pub open spec fn paragraph_views(ps: Seq<FormattedParagraph>) -> Seq<ParagraphView> {
    ps.map_values(|p: FormattedParagraph| p@)
}

/// Largest leading that the composer lays out.
pub const MAX_LEADING: i64 = 20_000_000_000;

/// The number of characters that the lines show.
pub open spec fn lines_chars(lines: Seq<LineView>) -> int
    decreases lines.len(),
{
    if lines.len() == 0 {
        0
    } else {
        lines_chars(lines.drop_last()) + tokens_chars(lines.last().tokens)
    }
}

/// The number of tokens on the lines.
pub open spec fn lines_tokens(lines: Seq<LineView>) -> int
    decreases lines.len(),
{
    if lines.len() == 0 {
        0
    } else {
        lines_tokens(lines.drop_last()) + lines.last().tokens.len()
    }
}

/// The lines are those of one paragraph of supported length, and the width
/// of each is the measured width of its tokens.
pub open spec fn measured(ctx: FontContext, lines: Seq<LineView>, is_chinese: bool) -> bool {
    &&& lines_chars(lines) <= MAX_TEXT_CHARS
    &&& lines_tokens(lines) <= MAX_TEXT_CHARS
    &&& forall|i: int|
        0 <= i < lines.len() ==> (#[trigger] lines[i]).width == tokens_width(
            ctx,
            lines[i].tokens,
            is_chinese,
        )
}

/// The text of every line is the text that its tokens show.
pub open spec fn texts_agree(lines: Seq<LineView>) -> bool {
    forall|i: int| 0 <= i < lines.len() ==> (#[trigger] lines[i]).text == tokens_text(
        lines[i].tokens,
    )
}

/// One line holds no more than all lines together.
pub proof fn lemma_line_within(lines: Seq<LineView>, i: int)
    requires
        0 <= i < lines.len(),
    ensures
        0 <= tokens_chars(lines[i].tokens) <= lines_chars(lines),
        lines[i].tokens.len() <= lines_tokens(lines),
        0 <= lines_chars(lines),
        0 <= lines_tokens(lines),
    decreases lines.len(),
{
    lemma_totals_positive(lines);
    lemma_counts_bounded(lines[i].tokens);
    if i < lines.len() - 1 {
        lemma_line_within(lines.drop_last(), i);
        lemma_counts_bounded(lines.last().tokens);
    } else {
        lemma_totals_positive(lines.drop_last());
    }
}

/// Totals are not negative.
pub proof fn lemma_totals_positive(lines: Seq<LineView>)
    ensures
        0 <= lines_chars(lines),
        0 <= lines_tokens(lines),
    decreases lines.len(),
{
    if lines.len() > 0 {
        lemma_totals_positive(lines.drop_last());
        lemma_counts_bounded(lines.last().tokens);
    }
}

/// Replacing one line changes the totals by the difference between the new
/// line and the old.
pub proof fn lemma_totals_update(lines: Seq<LineView>, i: int, l: LineView)
    requires
        0 <= i < lines.len(),
    ensures
        lines_chars(lines.update(i, l)) == lines_chars(lines) - tokens_chars(lines[i].tokens)
            + tokens_chars(l.tokens),
        lines_tokens(lines.update(i, l)) == lines_tokens(lines) - lines[i].tokens.len()
            + l.tokens.len(),
    decreases lines.len(),
{
    let u = lines.update(i, l);
    if i < lines.len() - 1 {
        lemma_totals_update(lines.drop_last(), i, l);
        assert(u.drop_last() == lines.drop_last().update(i, l));
        assert(u.last() == lines.last());
    } else {
        assert(u.drop_last() == lines.drop_last());
        assert(u.last() == l);
    }
}

/// The width of a measured line fits the machine integer with room to spare.
pub proof fn lemma_measured_width(ctx: FontContext, lines: Seq<LineView>, i: int, is_chinese: bool)
    requires
        ctx.valid(),
        measured(ctx, lines, is_chinese),
        0 <= i < lines.len(),
    ensures
        -2_000_000_000_000_000_000 <= lines[i].width <= 2_000_000_000_000_000_000,
        supported(lines[i].tokens),
{
    lemma_line_within(lines, i);
    let ts = lines[i].tokens;
    assert(ts.subrange(0, ts.len() as int) == ts);
    lemma_range_width_fits(ctx, ts, 0, ts.len() as int, is_chinese);
}

/// Lines with the same tokens show the same number of characters.
pub proof fn lemma_same_tokens_totals(a: Seq<LineView>, b: Seq<LineView>)
    requires
        a.len() == b.len(),
        forall|i: int| 0 <= i < a.len() ==> (#[trigger] a[i]).tokens == b[i].tokens,
    ensures
        lines_chars(a) == lines_chars(b),
        lines_tokens(a) == lines_tokens(b),
    decreases a.len(),
{
    if a.len() > 0 {
        assert(a.last().tokens == b.last().tokens);
        assert forall|i: int| 0 <= i < a.drop_last().len() implies (
        #[trigger] a.drop_last()[i]).tokens == b.drop_last()[i].tokens by {
            assert(a.drop_last()[i] == a[i]);
            assert(b.drop_last()[i] == b[i]);
        }
        lemma_same_tokens_totals(a.drop_last(), b.drop_last());
    }
}

/// Largest baseline of a line, relative to its paragraph.
pub const MAX_BASELINE: i64 = 20_000_000_000_000_000;

/// Largest height of a paragraph.
pub const MAX_HEIGHT: i64 = 20_000_020_000_000_000;

impl LineView {
    /// The line lies within the limits of what the library emits.
    pub open spec fn ready(self) -> bool {
        &&& -MAX_ORIGIN <= self.x <= MAX_ORIGIN
        &&& -MAX_ORIGIN <= self.y <= MAX_ORIGIN
        &&& 0 <= self.height <= MAX_LEADING
        &&& 0 <= self.baseline <= MAX_BASELINE
        &&& 0 < self.font_size <= MAX_LENGTH
        &&& self.text.len() <= MAX_TEXT_CHARS
        &&& forall|k: int|
            0 <= k < self.space_adjustments.len() ==> -500 <= (
            #[trigger] self.space_adjustments[k]).adjustment_ratio <= 500
    }
}

impl ParagraphView {
    /// The paragraph lies within the limits of what the library places and
    /// emits.
    pub open spec fn placed(self) -> bool {
        &&& -MAX_ORIGIN <= self.x <= MAX_ORIGIN
        &&& -MAX_ORIGIN <= self.y <= MAX_ORIGIN
        &&& 0 <= self.height <= MAX_HEIGHT
        &&& 0 < self.font_size <= MAX_LENGTH
        &&& forall|i: int| 0 <= i < self.lines.len() ==> (#[trigger] self.lines[i]).ready()
    }
}

/// Largest magnitude of a paragraph's origin.
pub const MAX_ORIGIN: i64 = 4_000_000_000_000_000_000;

} // verus!
