//! The paragraph composer: normalization, tokens and the layout of a
//! paragraph.

use crate::chars::{
    char_is_ascii_punctuation, char_is_whitespace, char_script_class, chars_to_string, has_cjk,
    is_ascii_punctuation, is_cjk, is_cjk_class, is_whitespace, script_class_of, string_to_chars,
};
use crate::compose::{composed, lemma_composed_measured, lemma_composed_ready};
use crate::fonts::FontContext;
use crate::lines::{
    lemma_line_within, line_views, LineView, MAX_ORIGIN, measured, ParagraphView, texts_agree,
};
use crate::tidy::{
    lemma_post_processed_frames, lemma_post_processed_texts, post_processed, same_frame,
};
use crate::tokens::{
    lemma_counts_bounded, lemma_range_width_fits, lemma_single_token, lemma_subrange_chars,
    punctuation, punctuation_token, supported, Token, token_chars, token_views, token_width,
    tokens_chars, tokens_width,
};
use crate::units::{MAX_LENGTH, MAX_TEXT_CHARS};
use unicode_bidi::{BidiInfo, Level};
use vstd::prelude::*;
use vstd::string::StrSliceExecFns;

pub use crate::lines::{FormattedLine, FormattedParagraph, SpaceAdjustment};
pub use crate::tokens::TextToken;

verus! {

/// The paragraph composer: lays text out with the metrics and settings of a
/// font context.
pub struct TextLayoutEngine {
    pub font_context: FontContext,
}

/// The character that normalization writes for position `i` of `s`, and the
/// number of characters of `s` that it stands for.
///
/// Straight quotes become curly ones, opening at the start of the text or
/// after white space and closing elsewhere; three periods become an ellipsis;
/// two hyphens become an em dash.
pub open spec fn normalize_step(s: Seq<char>, i: int) -> (char, int)
    recommends
        0 <= i < s.len(),
{
    let c = s[i];
    let opening = i == 0 || is_whitespace(s[i - 1]);
    if c == '"' {
        (
            if opening {
                '\u{201C}'
            } else {
                '\u{201D}'
            },
            1,
        )
    } else if c == '\'' {
        (
            if opening {
                '\u{2018}'
            } else {
                '\u{2019}'
            },
            1,
        )
    } else if c == '.' && i + 2 < s.len() && s[i + 1] == '.' && s[i + 2] == '.' {
        ('\u{2026}', 3)
    } else if c == '-' && i + 1 < s.len() && s[i + 1] == '-' {
        ('\u{2014}', 2)
    } else {
        (c, 1)
    }
}

/// The normalized form of `s` from position `i` on, scanning left to right.
pub open spec fn normalize_from(s: Seq<char>, i: int) -> Seq<char>
    decreases s.len() - i,
{
    if i < 0 || i >= s.len() {
        Seq::empty()
    } else {
        let step = normalize_step(s, i);
        if step.1 >= 1 {
            seq![step.0] + normalize_from(s, i + step.1)
        } else {
            Seq::empty()
        }
    }
}

/// The text with its punctuation normalized.
pub open spec fn normalized(s: Seq<char>) -> Seq<char> {
    normalize_from(s, 0)
}

/// Normalization never lengthens a text.
pub proof fn lemma_normalize_len(s: Seq<char>, i: int)
    requires
        0 <= i <= s.len(),
    ensures
        normalize_from(s, i).len() <= s.len() - i,
    decreases s.len() - i,
{
    if i < s.len() {
        let step = normalize_step(s, i);
        lemma_normalize_len(s, i + step.1);
    }
}

/// The CJK punctuation marks, after which Chinese text breaks naturally.
pub open spec fn is_chinese_punctuation(c: char) -> bool {
    c == '\u{FF0C}' || c == '\u{3002}' || c == '\u{FF1B}' || c == '\u{FF1A}' || c == '\u{FF1F}'
        || c == '\u{FF01}' || c == '\u{300C}' || c == '\u{300D}' || c == '\u{300E}' || c
        == '\u{300F}' || c == '\u{FF08}' || c == '\u{FF09}'
}

/// The token that one character of Chinese text becomes.
pub open spec fn chinese_token(c: char) -> Token {
    if is_chinese_punctuation(c) {
        punctuation_token(c)
    } else if is_whitespace(c) {
        Token::Space
    } else if c == '\u{AD}' {
        Token::DiscretionaryHyphen
    } else {
        Token::Word(seq![c])
    }
}

/// ASCII punctuation that ends a Latin word and stands as a token of its
/// own: all of it but the apostrophe and the hyphen.
pub open spec fn is_separator(c: char) -> bool {
    is_ascii_punctuation(c) && c != '\'' && c != '-'
}

/// `tokens` with the word under construction appended, if there is one.
pub open spec fn flush(tokens: Seq<Token>, word: Seq<char>) -> Seq<Token> {
    if word.len() > 0 {
        tokens.push(Token::Word(word))
    } else {
        tokens
    }
}

/// The tokens of Latin text `s` that are complete once `s` has been read.
pub open spec fn latin_done(s: Seq<char>) -> Seq<Token>
    decreases s.len(),
{
    if s.len() == 0 {
        Seq::empty()
    } else {
        let before = s.drop_last();
        let c = s.last();
        let flushed = flush(latin_done(before), latin_word(before));
        if is_whitespace(c) {
            if before.len() > 0 && is_whitespace(before.last()) {
                flushed
            } else {
                flushed.push(Token::Space)
            }
        } else if c == '\u{AD}' {
            flushed.push(Token::DiscretionaryHyphen)
        } else if is_separator(c) {
            flushed.push(punctuation_token(c))
        } else {
            latin_done(before)
        }
    }
}

/// The word under construction once Latin text `s` has been read.
pub open spec fn latin_word(s: Seq<char>) -> Seq<char>
    decreases s.len(),
{
    if s.len() == 0 {
        Seq::empty()
    } else {
        let c = s.last();
        if is_whitespace(c) || c == '\u{AD}' || is_separator(c) {
            Seq::empty()
        } else {
            latin_word(s.drop_last()).push(c)
        }
    }
}

/// The tokens of a text.
///
/// In Chinese text every character is a token of its own. In Latin text a
/// word is a longest run of characters that are neither white space, soft
/// hyphens nor separators, and a run of white space is one space.
pub open spec fn tokenized(s: Seq<char>, is_chinese: bool) -> Seq<Token> {
    if is_chinese {
        s.map_values(|c: char| chinese_token(c))
    } else {
        flush(latin_done(s), latin_word(s))
    }
}

/// The tokens of a Latin text show no more characters than the text has, and
/// there are no more of them than characters.
pub proof fn lemma_latin_counts(s: Seq<char>)
    ensures
        tokens_chars(latin_done(s)) + latin_word(s).len() <= s.len(),
        latin_done(s).len() + (if latin_word(s).len() > 0 {
            1int
        } else {
            0int
        }) <= s.len(),
        tokens_chars(latin_done(s)) >= 0,
    decreases s.len(),
{
    if s.len() > 0 {
        let before = s.drop_last();
        lemma_latin_counts(before);
        let flushed = flush(latin_done(before), latin_word(before));
        if latin_word(before).len() > 0 {
            assert(flushed.drop_last() == latin_done(before));
        }
        assert(tokens_chars(flushed) == tokens_chars(latin_done(before)) + latin_word(
            before,
        ).len());
        let c = s.last();
        if is_whitespace(c) && !(before.len() > 0 && is_whitespace(before.last())) {
            assert(flushed.push(Token::Space).drop_last() == flushed);
        } else if !is_whitespace(c) && c == '\u{AD}' {
            assert(flushed.push(Token::DiscretionaryHyphen).drop_last() == flushed);
        } else if !is_whitespace(c) && is_separator(c) {
            assert(flushed.push(punctuation_token(c)).drop_last() == flushed);
        }
    }
}

/// The tokens of a Chinese text show exactly its characters, one each.
pub proof fn lemma_chinese_counts(s: Seq<char>)
    ensures
        tokens_chars(tokenized(s, true)) == s.len(),
        tokenized(s, true).len() == s.len(),
    decreases s.len(),
{
    if s.len() > 0 {
        lemma_chinese_counts(s.drop_last());
        assert(tokenized(s, true).drop_last() == tokenized(s.drop_last(), true));
    }
}

/// Tokenizing keeps a text within the supported length.
pub proof fn lemma_tokenized_counts(s: Seq<char>, is_chinese: bool)
    ensures
        0 <= tokens_chars(tokenized(s, is_chinese)) <= s.len(),
        tokenized(s, is_chinese).len() <= s.len(),
{
    if is_chinese {
        lemma_chinese_counts(s);
    } else {
        lemma_latin_counts(s);
        if latin_word(s).len() > 0 {
            assert(tokenized(s, false).drop_last() == latin_done(s));
        }
    }
}

/// Why a paragraph could not be laid out.
#[derive(Clone, Copy, Debug, PartialEq, Eq, Structural)]
pub enum LayoutError {
    /// A size, the width or the origin is not positive or beyond what the
    /// library lays out.
    InvalidGeometry,
    /// The text has more characters than the library lays out.
    TextTooLong,
}

/// The leading of a script: its line height, but at least four points more
/// than its font size.
pub open spec fn leading_of(ctx: FontContext, is_chinese: bool) -> int {
    let floor = ctx.size(is_chinese) + 4000;
    if ctx.line_height(is_chinese) < floor {
        floor
    } else {
        ctx.line_height(is_chinese)
    }
}

/// The context's settings, the width and the origin can be laid out.
pub open spec fn geometry_ok(ctx: FontContext, x: int, y: int, max_width: int) -> bool {
    &&& ctx.valid()
    &&& 0 < max_width <= MAX_LENGTH
    &&& -MAX_ORIGIN <= x <= MAX_ORIGIN
    &&& -MAX_ORIGIN <= y <= MAX_ORIGIN
}

/// The height of a paragraph: from the first baseline to the last, and one
/// leading more. A paragraph without lines is one leading high.
pub open spec fn paragraph_height(lines: Seq<LineView>, leading: int) -> int {
    if lines.len() == 0 {
        leading
    } else {
        (lines.last().baseline - lines[0].baseline) + leading
    }
}

/// The lines of a laid-out paragraph: the text is normalized, split into
/// tokens, broken into lines and tidied.
pub open spec fn laid_out_lines(
    ctx: FontContext,
    text: Seq<char>,
    max_width: int,
    is_chinese: bool,
) -> Seq<LineView> {
    post_processed(
        ctx,
        composed(
            ctx,
            tokenized(normalized(text), is_chinese),
            is_chinese,
            max_width,
            leading_of(ctx, is_chinese),
        ),
        max_width,
        is_chinese,
    )
}

/// The paragraph that laying out `text` at the origin `x`, `y` gives.
pub open spec fn laid_out(
    ctx: FontContext,
    text: Seq<char>,
    x: int,
    y: int,
    max_width: int,
    is_chinese: bool,
) -> ParagraphView {
    let lines = laid_out_lines(ctx, text, max_width, is_chinese);
    ParagraphView {
        lines,
        x,
        y,
        width: max_width,
        height: paragraph_height(lines, leading_of(ctx, is_chinese)),
        is_chinese,
        font_size: ctx.size(is_chinese),
        line_spacing: ctx.line_spacing as int,
        leading: leading_of(ctx, is_chinese),
    }
}

/// What laying out a paragraph gives: the paragraph, or why there is none.
pub open spec fn layout_result(
    ctx: FontContext,
    text: Seq<char>,
    x: int,
    y: int,
    max_width: int,
    is_chinese: bool,
) -> Result<ParagraphView, LayoutError> {
    if !geometry_ok(ctx, x, y, max_width) {
        Err(LayoutError::InvalidGeometry)
    } else if text.len() > MAX_TEXT_CHARS {
        Err(LayoutError::TextTooLong)
    } else {
        Ok(laid_out(ctx, text, x, y, max_width, is_chinese))
    }
}

/// The stored text of every line of a laid-out paragraph is the text that
/// the line's tokens show, put together in order.
pub proof fn lemma_round_trip(ctx: FontContext, text: Seq<char>, max_width: int, is_chinese: bool)
    ensures
        texts_agree(laid_out_lines(ctx, text, max_width, is_chinese)),
{
    let ts = tokenized(normalized(text), is_chinese);
    let lines = composed(ctx, ts, is_chinese, max_width, leading_of(ctx, is_chinese));
    assert(texts_agree(lines));
    lemma_post_processed_texts(ctx, lines, max_width, is_chinese);
}

/// `BidiInfo::new` of `unicode_bidi`: analyses the directional runs of the
/// text with a left-to-right base direction. The analysis is dropped, so
/// nothing is claimed of it.
#[verifier::external_body]
pub(crate) fn analyse_directions(text: &str) {
    let _info = BidiInfo::new(text, Some(Level::ltr()));
}

/// A paragraph composer for the given context.
pub fn create_layout_engine(font_context: FontContext) -> (engine: TextLayoutEngine)
    ensures
        engine.font_context == font_context,
{
    TextLayoutEngine::new(font_context)
}

impl TextLayoutEngine {
    /// A composer for the given context.
    pub fn new(font_context: FontContext) -> (engine: TextLayoutEngine)
        ensures
            engine.font_context == font_context,
    {
        TextLayoutEngine { font_context }
    }

    /// The measured width of one token.
    pub fn token_width(&self, token: &TextToken, is_chinese: bool) -> (width: i64)
        requires
            self.font_context.valid(),
            token_chars(token@) <= MAX_TEXT_CHARS,
        ensures
            width == token_width(self.font_context, token@, is_chinese),
    {
        match token {
            TextToken::Word(w) => self.font_context.calculate_text_width(w.as_str(), is_chinese),
            TextToken::Space => {
                let v: Vec<char> = vec![' '];
                assert(v@ == seq![' ']);
                self.font_context.measure_chars(&v, is_chinese)
            },
            TextToken::Punctuation(c) => {
                let v: Vec<char> = vec![*c];
                assert(v@ == seq![*c]);
                self.font_context.measure_chars(&v, is_chinese)
            },
            TextToken::DiscretionaryHyphen => {
                let v: Vec<char> = vec!['-'];
                assert(v@ == seq!['-']);
                self.font_context.measure_chars(&v, is_chinese)
            },
        }
    }

    /// The measured width of the tokens from `start` up to `end`.
    pub fn range_width(
        &self,
        tokens: &Vec<TextToken>,
        start: usize,
        end: usize,
        is_chinese: bool,
    ) -> (width: i64)
        requires
            self.font_context.valid(),
            start <= end <= tokens.len(),
            tokens_chars(token_views(tokens@)) <= MAX_TEXT_CHARS,
        ensures
            width == tokens_width(
                self.font_context,
                token_views(tokens@).subrange(start as int, end as int),
                is_chinese,
            ),
            -2_000_000_000_000_000_000 <= width <= 2_000_000_000_000_000_000,
    {
        let ghost ts = token_views(tokens@);
        let mut width: i64 = 0;
        let mut i: usize = start;
        while i < end
            invariant
                self.font_context.valid(),
                start <= i <= end <= tokens.len(),
                ts == token_views(tokens@),
                tokens_chars(ts) <= MAX_TEXT_CHARS,
                width == tokens_width(
                    self.font_context,
                    ts.subrange(start as int, i as int),
                    is_chinese,
                ),
            decreases end - i,
        {
            proof {
                let before = ts.subrange(start as int, i as int);
                let after = ts.subrange(start as int, i + 1);
                assert(after.drop_last() == before);
                assert(after.last() == tokens@[i as int]@);
                lemma_range_width_fits(self.font_context, ts, start as int, i as int, is_chinese);
                lemma_range_width_fits(self.font_context, ts, start as int, i + 1, is_chinese);
                lemma_subrange_chars(ts, i as int, i + 1);
                assert(ts.subrange(i as int, i + 1) == seq![tokens@[i as int]@]);
                lemma_single_token(self.font_context, tokens@[i as int]@, is_chinese);
            }
            let w: i64 = self.token_width(&tokens[i], is_chinese);
            width = width + w;
            i += 1;
        }
        proof {
            lemma_range_width_fits(self.font_context, ts, start as int, end as int, is_chinese);
        }
        width
    }

    /// The measured width of a line of tokens.
    pub fn calculate_line_width(&self, tokens: &Vec<TextToken>, is_chinese: bool) -> (width: i64)
        requires
            self.font_context.valid(),
            tokens_chars(token_views(tokens@)) <= MAX_TEXT_CHARS,
        ensures
            width == tokens_width(self.font_context, token_views(tokens@), is_chinese),
            -2_000_000_000_000_000_000 <= width <= 2_000_000_000_000_000_000,
    {
        assert(token_views(tokens@).subrange(0, tokens.len() as int) == token_views(tokens@));
        self.range_width(tokens, 0, tokens.len(), is_chinese)
    }

    /// Normalizes punctuation: curly quotes, ellipsis and em dash.
    pub fn normalize_punctuation(&self, text: &str) -> (out: String)
        ensures
            out@ == normalized(text@),
    {
        let chars = string_to_chars(text);
        let mut out: Vec<char> = Vec::new();
        let mut i: usize = 0;
        while i < chars.len()
            invariant
                i <= chars.len(),
                chars@ == text@,
                out@ + normalize_from(chars@, i as int) == normalized(chars@),
            decreases chars.len() - i,
        {
            let c = chars[i];
            let opening = i == 0 || char_is_whitespace(chars[i - 1]);
            let ghost step = normalize_step(chars@, i as int);
            let ghost old_out = out@;
            let mut n: usize = 1;
            if c == '"' {
                out.push(
                    if opening {
                        '\u{201C}'
                    } else {
                        '\u{201D}'
                    },
                );
            } else if c == '\'' {
                out.push(
                    if opening {
                        '\u{2018}'
                    } else {
                        '\u{2019}'
                    },
                );
            } else if c == '.' && chars.len() - i > 2 && chars[i + 1] == '.' && chars[i + 2]
                == '.' {
                out.push('\u{2026}');
                n = 3;
            } else if c == '-' && chars.len() - i > 1 && chars[i + 1] == '-' {
                out.push('\u{2014}');
                n = 2;
            } else {
                out.push(c);
            }
            proof {
                assert(n == step.1);
                assert(out@ == old_out.push(step.0));
                assert(old_out.push(step.0) + normalize_from(chars@, i + step.1) == old_out + (
                seq![step.0] + normalize_from(chars@, i + step.1)));
            }
            i += n;
        }
        assert(out@ + Seq::<char>::empty() == out@);
        chars_to_string(&out)
    }

    /// Whether Chinese text breaks naturally after `ch`.
    pub fn is_natural_break_point(&self, ch: char) -> (r: bool)
        ensures
            r == is_chinese_punctuation(ch),
    {
        ch == '\u{FF0C}' || ch == '\u{3002}' || ch == '\u{FF1B}' || ch == '\u{FF1A}' || ch
            == '\u{FF1F}' || ch == '\u{FF01}' || ch == '\u{300C}' || ch == '\u{300D}' || ch
            == '\u{300E}' || ch == '\u{300F}' || ch == '\u{FF08}' || ch == '\u{FF09}'
    }

    /// Whether `ch` is a CJK punctuation mark.
    pub fn is_chinese_punctuation(&self, ch: char) -> (r: bool)
        ensures
            r == is_chinese_punctuation(ch),
    {
        self.is_natural_break_point(ch)
    }

    /// Splits a text into tokens.
    pub fn tokenize_text(&self, text: &str, is_chinese: bool) -> (tokens: Vec<TextToken>)
        ensures
            token_views(tokens@) == tokenized(text@, is_chinese),
    {
        let chars = string_to_chars(text);
        let mut tokens: Vec<TextToken> = Vec::new();
        let mut word: Vec<char> = Vec::new();
        let mut i: usize = 0;
        while i < chars.len()
            invariant
                i <= chars.len(),
                chars@ == text@,
                is_chinese ==> word@.len() == 0 && token_views(tokens@) == tokenized(
                    chars@.take(i as int),
                    true,
                ),
                !is_chinese ==> word@ == latin_word(chars@.take(i as int)) && token_views(tokens@)
                    == latin_done(chars@.take(i as int)),
            decreases chars.len() - i,
        {
            let c = chars[i];
            let ghost before = chars@.take(i as int);
            let ghost after = chars@.take(i + 1);
            let ghost old_tokens = tokens@;
            proof {
                assert(after.drop_last() == before);
                assert(after.last() == c);
                if i > 0 {
                    assert(before.last() == chars@[i - 1]);
                }
            }
            if is_chinese {
                if self.is_chinese_punctuation(c) {
                    tokens.push(punctuation(c));
                } else if char_is_whitespace(c) {
                    tokens.push(TextToken::Space);
                } else if c == '\u{AD}' {
                    tokens.push(TextToken::DiscretionaryHyphen);
                } else {
                    let one: Vec<char> = vec![c];
                    assert(one@ == seq![c]);
                    tokens.push(TextToken::Word(chars_to_string(&one)));
                }
                proof {
                    assert(token_views(tokens@) == token_views(old_tokens).push(chinese_token(c)));
                    assert(tokenized(after, true) == tokenized(before, true).push(
                        chinese_token(c),
                    ));
                }
            } else {
                let ws = char_is_whitespace(c);
                let soft = c == '\u{AD}';
                let sep = char_is_ascii_punctuation(c) && c != '\'' && c != '-';
                if ws || soft || sep {
                    if word.len() > 0 {
                        tokens.push(TextToken::Word(chars_to_string(&word)));
                        word = Vec::new();
                    }
                    let ghost flushed = tokens@;
                    assert(token_views(flushed) == flush(latin_done(before), latin_word(before)));
                    if ws {
                        if !(i > 0 && char_is_whitespace(chars[i - 1])) {
                            tokens.push(TextToken::Space);
                            assert(token_views(tokens@) == token_views(flushed).push(Token::Space));
                        }
                    } else if soft {
                        tokens.push(TextToken::DiscretionaryHyphen);
                        assert(token_views(tokens@) == token_views(flushed).push(
                            Token::DiscretionaryHyphen,
                        ));
                    } else {
                        tokens.push(punctuation(c));
                        assert(token_views(tokens@) == token_views(flushed).push(
                            punctuation_token(c),
                        ));
                    }
                } else {
                    word.push(c);
                }
            }
            i += 1;
        }
        assert(chars@.take(chars.len() as int) == chars@);
        if word.len() > 0 {
            let ghost done = tokens@;
            tokens.push(TextToken::Word(chars_to_string(&word)));
            assert(token_views(tokens@) == token_views(done).push(Token::Word(word@)));
        }
        tokens
    }

    /// The directional pass: analyses the text and hands it on as it is.
    /// Nothing is reordered.
    pub fn process_bidi_text(&self, text: &str) -> (out: String)
        ensures
            out@ == text@,
    {
        analyse_directions(text);
        text.to_owned()
    }

    /// Whether the text holds a character of a CJK script.
    pub fn detect_script(&self, text: &str) -> (r: bool)
        ensures
            r == has_cjk(text@),
    {
        let chars = string_to_chars(text);
        let mut i: usize = 0;
        while i < chars.len()
            invariant
                i <= chars.len(),
                chars@ == text@,
                forall|j: int| 0 <= j < i ==> !is_cjk(script_class_of(#[trigger] chars@[j])),
            decreases chars.len() - i,
        {
            if is_cjk_class(char_script_class(chars[i])) {
                return true;
            }
            i += 1;
        }
        false
    }

    /// Lays out one paragraph of text in a column `max_width` wide whose
    /// origin is `x`, `y`.
    pub fn layout_paragraph(
        &self,
        text: &str,
        x: i64,
        y: i64,
        max_width: i64,
        is_chinese: bool,
    ) -> (result: Result<FormattedParagraph, LayoutError>)
        ensures
            match result {
                Ok(p) => p@.placed() && texts_agree(p@.lines) && (forall|i: int|
                    0 <= i < p@.lines.len() ==> (#[trigger] p@.lines[i]).is_justified == (
                    p@.lines[i].space_adjustments.len() > 0)) && layout_result(
                    self.font_context,
                    text@,
                    x as int,
                    y as int,
                    max_width as int,
                    is_chinese,
                ) == Ok::<ParagraphView, LayoutError>(p@),
                Err(e) => layout_result(
                    self.font_context,
                    text@,
                    x as int,
                    y as int,
                    max_width as int,
                    is_chinese,
                ) == Err::<ParagraphView, LayoutError>(e),
            },
    {
        let ghost ctx = self.font_context;
        if !self.font_context.is_valid() || max_width <= 0 || max_width > MAX_LENGTH || x
            < -MAX_ORIGIN || x > MAX_ORIGIN || y < -MAX_ORIGIN || y > MAX_ORIGIN {
            return Err(LayoutError::InvalidGeometry);
        }
        if text.unicode_len() > MAX_TEXT_CHARS {
            return Err(LayoutError::TextTooLong);
        }
        let normalized_text = self.normalize_punctuation(text);
        let bidi_text = self.process_bidi_text(normalized_text.as_str());
        let tokens = self.tokenize_text(bidi_text.as_str(), is_chinese);
        let ghost ts = token_views(tokens@);
        proof {
            lemma_normalize_len(text@, 0);
            lemma_tokenized_counts(normalized(text@), is_chinese);
        }
        let font_size: i64 = if is_chinese {
            self.font_context.font_size_chinese
        } else {
            self.font_context.font_size_english
        };
        let mut leading: i64 = self.font_context.get_line_height(is_chinese);
        if leading < font_size + 4000 {
            leading = font_size + 4000;
        }
        let mut lines = self.compose_paragraph(&tokens, max_width, leading, is_chinese);
        let ghost first = line_views(lines@);
        proof {
            lemma_composed_measured(ctx, ts, is_chinese, max_width as int, leading as int);
            lemma_post_processed_texts(ctx, first, max_width as int, is_chinese);
            lemma_post_processed_frames(ctx, first, max_width as int, is_chinese);
            lemma_composed_ready(ctx, ts, is_chinese, max_width as int, leading as int);
        }
        self.post_process_lines(&mut lines, max_width, is_chinese);
        let ghost done = line_views(lines@);
        proof {
            assert forall|i: int| 0 <= i < done.len() implies (#[trigger] done[i]).ready() by {
                assert(same_frame(done[i], first[i]));
                assert(first[i].ready());
                lemma_line_within(done, i);
                lemma_counts_bounded(done[i].tokens);
            }
            assert forall|i: int| 0 <= i < done.len() implies (#[trigger] done[i]).is_justified
                == (done[i].space_adjustments.len() > 0) by {
                assert(same_frame(done[i], first[i]));
            }
        }
        let total_height: i64 = if lines.len() == 0 {
            leading
        } else {
            let last = lines.len() - 1;
            proof {
                assert(done[0] == lines@[0]@);
                assert(done[last as int] == lines@[last as int]@);
                assert(done[0].baseline == first[0].baseline);
                assert(done[last as int].baseline == first[last as int].baseline);
                assert(first[0].baseline == 0 * leading);
                assert(first[last as int].baseline == last * leading);
                assert(0 <= last * leading <= 1_000_000 * 20_000_000_000) by (nonlinear_arith)
                    requires
                        0 <= last <= 1_000_000,
                        0 <= leading <= 20_000_000_000,
                ;
            }
            (lines[last].baseline - lines[0].baseline) + leading
        };
        Ok(
            FormattedParagraph {
                lines,
                x,
                y,
                width: max_width,
                height: total_height,
                is_chinese,
                font_size,
                line_spacing: self.font_context.line_spacing,
                leading,
            },
        )
    }
}

} // verus!
