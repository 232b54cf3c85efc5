//! Tokens of paragraph text: what they show, how many characters they hold and
//! how wide they measure.

use crate::chars::push_char;
use crate::fonts::FontContext;
use crate::lines::measured;
use crate::units::{MAX_TEXT_CHARS, PER_CHAR_LIMIT};
use vstd::prelude::*;
use vstd::string::StringExecFns;

verus! {

/// A token of paragraph text.
#[derive(Debug, Clone, PartialEq)]
pub enum TextToken {
    Word(String),
    Space,
    Punctuation(char),
    /// A point at which a word may be split: the soft hyphen U+00AD.
    DiscretionaryHyphen,
}

/// What a token is, as a mathematical value.
pub enum Token {
    Word(Seq<char>),
    Space,
    Punctuation(char),
    DiscretionaryHyphen,
}

impl View for TextToken {
    type V = Token;

    open spec fn view(&self) -> Token {
        match self {
            TextToken::Word(w) => Token::Word(w@),
            TextToken::Space => Token::Space,
            TextToken::Punctuation(c) => Token::Punctuation(*c),
            TextToken::DiscretionaryHyphen => Token::DiscretionaryHyphen,
        }
    }
}

/// The punctuation token of `c`.
pub open spec fn punctuation_token(c: char) -> Token {
    Token::Punctuation(c)
}

/// The values of a sequence of tokens.
pub open spec fn token_views(ts: Seq<TextToken>) -> Seq<Token> {
    ts.map_values(|t: TextToken| t@)
}

/// The text that a token shows.
pub open spec fn token_text(t: Token) -> Seq<char> {
    match t {
        Token::Word(w) => w,
        Token::Space => seq![' '],
        Token::Punctuation(c) => seq![c],
        Token::DiscretionaryHyphen => seq!['-'],
    }
}

/// The text that a sequence of tokens shows: the texts of the tokens, in order.
pub open spec fn tokens_text(ts: Seq<Token>) -> Seq<char>
    decreases ts.len(),
{
    if ts.len() == 0 {
        Seq::empty()
    } else {
        tokens_text(ts.drop_last()) + token_text(ts.last())
    }
}

/// The number of tokens that are words.
pub open spec fn count_words(ts: Seq<Token>) -> int
    decreases ts.len(),
{
    if ts.len() == 0 {
        0
    } else {
        count_words(ts.drop_last()) + if ts.last() is Word {
            1int
        } else {
            0int
        }
    }
}

/// The number of tokens that are spaces.
pub open spec fn count_spaces(ts: Seq<Token>) -> int
    decreases ts.len(),
{
    if ts.len() == 0 {
        0
    } else {
        count_spaces(ts.drop_last()) + if ts.last() is Space {
            1int
        } else {
            0int
        }
    }
}

/// Whether the last token that is not a space is a hyphen.
pub open spec fn hyphen_at_end(ts: Seq<Token>) -> bool
    decreases ts.len(),
{
    if ts.len() == 0 {
        false
    } else {
        match ts.last() {
            Token::Space => hyphen_at_end(ts.drop_last()),
            Token::Punctuation(c) => c == '-',
            Token::DiscretionaryHyphen => true,
            Token::Word(_) => false,
        }
    }
}

/// The number of characters that a token shows.
pub open spec fn token_chars(t: Token) -> int {
    token_text(t).len() as int
}

/// The number of characters that a sequence of tokens shows.
pub open spec fn tokens_chars(ts: Seq<Token>) -> int
    decreases ts.len(),
{
    if ts.len() == 0 {
        0
    } else {
        tokens_chars(ts.drop_last()) + token_chars(ts.last())
    }
}

/// Counts are bounded by the number of tokens, and each token shows at least
/// as many characters as an empty word.
pub proof fn lemma_counts_bounded(ts: Seq<Token>)
    ensures
        0 <= count_words(ts) <= ts.len(),
        0 <= count_spaces(ts) <= ts.len(),
        0 <= tokens_chars(ts),
        tokens_text(ts).len() == tokens_chars(ts),
    decreases ts.len(),
{
    if ts.len() > 0 {
        lemma_counts_bounded(ts.drop_last());
    }
}

/// The punctuation token of `c`.
pub fn punctuation(c: char) -> (t: TextToken)
    ensures
        t@ == punctuation_token(c),
{
    TextToken::Punctuation(c)
}

/// A copy of a token.
pub fn clone_token(t: &TextToken) -> (r: TextToken)
    ensures
        r == *t,
{
    match t {
        TextToken::Word(w) => TextToken::Word(w.clone()),
        TextToken::Space => TextToken::Space,
        TextToken::Punctuation(c) => TextToken::Punctuation(*c),
        TextToken::DiscretionaryHyphen => TextToken::DiscretionaryHyphen,
    }
}

/// A copy of the tokens from `start` up to `end`.
pub fn clone_tokens(tokens: &Vec<TextToken>, start: usize, end: usize) -> (r: Vec<TextToken>)
    requires
        start <= end <= tokens.len(),
    ensures
        r@ == tokens@.subrange(start as int, end as int),
{
    let mut r: Vec<TextToken> = Vec::new();
    let mut i: usize = start;
    while i < end
        invariant
            start <= i <= end <= tokens.len(),
            r@ == tokens@.subrange(start as int, i as int),
        decreases end - i,
    {
        r.push(clone_token(&tokens[i]));
        i += 1;
        assert(tokens@.subrange(start as int, i as int) == tokens@.subrange(
            start as int,
            i - 1,
        ).push(tokens@[i - 1]));
    }
    r
}

/// The text that `tokens` show.
pub fn tokens_to_text(tokens: &Vec<TextToken>) -> (text: String)
    ensures
        text@ == tokens_text(token_views(tokens@)),
{
    let mut text = String::new();
    let mut i: usize = 0;
    while i < tokens.len()
        invariant
            i <= tokens.len(),
            text@ == tokens_text(token_views(tokens@).take(i as int)),
        decreases tokens.len() - i,
    {
        let ghost before = token_views(tokens@).take(i as int);
        let ghost after = token_views(tokens@).take(i + 1);
        assert(after.drop_last() == before);
        assert(after.last() == tokens@[i as int]@);
        match &tokens[i] {
            TextToken::Word(w) => {
                text.append(w.as_str());
            },
            TextToken::Space => {
                push_char(&mut text, ' ');
                assert(text@ == tokens_text(before) + seq![' ']);
            },
            TextToken::Punctuation(c) => {
                push_char(&mut text, *c);
                assert(text@ == tokens_text(before) + seq![*c]);
            },
            TextToken::DiscretionaryHyphen => {
                push_char(&mut text, '-');
                assert(text@ == tokens_text(before) + seq!['-']);
            },
        }
        i += 1;
    }
    assert(token_views(tokens@).take(tokens.len() as int) == token_views(tokens@));
    text
}

/// Texts, character counts and word counts of a concatenation are those of
/// its parts, joined or summed.
pub proof fn lemma_tokens_concat(a: Seq<Token>, b: Seq<Token>)
    ensures
        tokens_text(a + b) == tokens_text(a) + tokens_text(b),
        tokens_chars(a + b) == tokens_chars(a) + tokens_chars(b),
        count_words(a + b) == count_words(a) + count_words(b),
        count_spaces(a + b) == count_spaces(a) + count_spaces(b),
    decreases b.len(),
{
    if b.len() == 0 {
        assert(a + b == a);
    } else {
        lemma_tokens_concat(a, b.drop_last());
        assert((a + b).drop_last() == a + b.drop_last());
        assert((a + b).last() == b.last());
    }
}

/// A part of a token sequence shows no more characters than the whole.
pub proof fn lemma_subrange_chars(ts: Seq<Token>, start: int, end: int)
    requires
        0 <= start <= end <= ts.len(),
    ensures
        0 <= tokens_chars(ts.subrange(start, end)) <= tokens_chars(ts),
{
    let a = ts.subrange(0, start);
    let b = ts.subrange(start, end);
    let c = ts.subrange(end, ts.len() as int);
    assert(ts == (a + b) + c);
    lemma_tokens_concat(a + b, c);
    lemma_tokens_concat(a, b);
    lemma_counts_bounded(a);
    lemma_counts_bounded(b);
    lemma_counts_bounded(c);
}

/// The measured width of one token: the width of the text it shows.
pub open spec fn token_width(ctx: FontContext, t: Token, is_chinese: bool) -> int {
    ctx.text_width(token_text(t), is_chinese)
}

/// The measured width of a sequence of tokens: the sum of their widths.
pub open spec fn tokens_width(ctx: FontContext, ts: Seq<Token>, is_chinese: bool) -> int
    decreases ts.len(),
{
    if ts.len() == 0 {
        0
    } else {
        tokens_width(ctx, ts.drop_last(), is_chinese) + token_width(ctx, ts.last(), is_chinese)
    }
}

/// The width of a concatenation is the sum of the widths of its parts.
pub proof fn lemma_width_concat(ctx: FontContext, a: Seq<Token>, b: Seq<Token>, is_chinese: bool)
    ensures
        tokens_width(ctx, a + b, is_chinese) == tokens_width(ctx, a, is_chinese) + tokens_width(
            ctx,
            b,
            is_chinese,
        ),
    decreases b.len(),
{
    if b.len() == 0 {
        assert(a + b == a);
    } else {
        lemma_width_concat(ctx, a, b.drop_last(), is_chinese);
        assert((a + b).drop_last() == a + b.drop_last());
        assert((a + b).last() == b.last());
    }
}

/// A sequence of one token has the text, the count and the width of that token.
pub proof fn lemma_single_token(ctx: FontContext, t: Token, is_chinese: bool)
    ensures
        tokens_text(seq![t]) == token_text(t),
        tokens_chars(seq![t]) == token_chars(t),
        tokens_width(ctx, seq![t], is_chinese) == token_width(ctx, t, is_chinese),
        count_words(seq![t]) == if t is Word {
            1int
        } else {
            0int
        },
        count_spaces(seq![t]) == if t is Space {
            1int
        } else {
            0int
        },
{
    let s = seq![t];
    assert(s.drop_last() == Seq::<Token>::empty());
    assert(s.last() == t);
    assert(tokens_text(s.drop_last()) == Seq::<char>::empty());
    assert(tokens_text(s) == Seq::<char>::empty() + token_text(t));
    assert(Seq::<char>::empty() + token_text(t) == token_text(t));
    assert(tokens_chars(s.drop_last()) == 0);
    assert(tokens_width(ctx, s.drop_last(), is_chinese) == 0);
    assert(count_words(s.drop_last()) == 0);
    assert(count_spaces(s.drop_last()) == 0);
}

/// A measured width is bounded by the number of characters shown.
pub proof fn lemma_width_bound(ctx: FontContext, ts: Seq<Token>, is_chinese: bool)
    requires
        ctx.valid(),
    ensures
        -(tokens_chars(ts) * PER_CHAR_LIMIT) <= tokens_width(ctx, ts, is_chinese) <= tokens_chars(
            ts,
        ) * PER_CHAR_LIMIT,
    decreases ts.len(),
{
    if ts.len() > 0 {
        lemma_width_bound(ctx, ts.drop_last(), is_chinese);
        ctx.lemma_text_width_bound(token_text(ts.last()), is_chinese);
        let a = tokens_chars(ts.drop_last());
        let b = token_chars(ts.last());
        assert((a + b) * PER_CHAR_LIMIT == a * PER_CHAR_LIMIT + b * PER_CHAR_LIMIT)
            by (nonlinear_arith);
    }
}

/// The width of a part of a paragraph of supported length fits the machine
/// integer with room to add two such widths.
pub proof fn lemma_range_width_fits(
    ctx: FontContext,
    ts: Seq<Token>,
    start: int,
    end: int,
    is_chinese: bool,
)
    requires
        ctx.valid(),
        0 <= start <= end <= ts.len(),
        tokens_chars(ts) <= MAX_TEXT_CHARS,
    ensures
        -2_000_000_000_000_000_000 <= tokens_width(ctx, ts.subrange(start, end), is_chinese)
            <= 2_000_000_000_000_000_000,
{
    lemma_subrange_chars(ts, start, end);
    lemma_width_bound(ctx, ts.subrange(start, end), is_chinese);
    let n = tokens_chars(ts.subrange(start, end));
    assert(n * PER_CHAR_LIMIT <= 1_000_000 * PER_CHAR_LIMIT) by (nonlinear_arith)
        requires
            0 <= n <= 1_000_000,
    ;
}

/// A paragraph of supported length: no more tokens and no more characters
/// than the limit.
pub open spec fn supported(ts: Seq<Token>) -> bool {
    ts.len() <= MAX_TEXT_CHARS && tokens_chars(ts) <= MAX_TEXT_CHARS
}

/// Whether the last of `tokens` that is not a space is a hyphen.
pub fn tokens_end_with_hyphen(tokens: &Vec<TextToken>) -> (r: bool)
    ensures
        r == hyphen_at_end(token_views(tokens@)),
{
    let ghost ts = token_views(tokens@);
    let mut i: usize = tokens.len();
    assert(ts.take(i as int) == ts);
    while i > 0
        invariant
            i <= tokens.len(),
            ts == token_views(tokens@),
            hyphen_at_end(ts) == hyphen_at_end(ts.take(i as int)),
        decreases i,
    {
        proof {
            assert(ts.take(i as int).drop_last() == ts.take(i - 1));
            assert(ts.take(i as int).last() == tokens@[i - 1]@);
        }
        match &tokens[i - 1] {
            TextToken::Space => {},
            TextToken::Punctuation(c) => {
                return *c == '-';
            },
            TextToken::DiscretionaryHyphen => {
                return true;
            },
            TextToken::Word(_) => {
                return false;
            },
        }
        i -= 1;
    }
    false
}

/// Appending a token whose own width is not negative never decreases the
/// measured width of a token sequence.
pub proof fn lemma_width_monotonic(ctx: FontContext, ts: Seq<Token>, t: Token, is_chinese: bool)
    requires
        token_width(ctx, t, is_chinese) >= 0,
    ensures
        tokens_width(ctx, ts.push(t), is_chinese) >= tokens_width(ctx, ts, is_chinese),
{
    assert(ts.push(t).drop_last() == ts);
    assert(ts.push(t).last() == t);
}

/// A token that shows a single character is never of negative width.
pub proof fn lemma_single_char_width(ctx: FontContext, t: Token, is_chinese: bool)
    requires
        token_text(t).len() == 1,
    ensures
        token_width(ctx, t, is_chinese) >= 0,
{
}

} // verus!
