//! Line breaking: where a line may end, and greedy filling of lines.

use crate::chars::{
    char_is_uppercase, char_is_vowel, chars_to_string, is_vowel, string_to_chars,
    unicode_uppercase,
};
use crate::fonts::FontContext;
use crate::tokens::{
    clone_tokens, lemma_single_token, lemma_subrange_chars, lemma_tokens_concat, supported,
    TextToken, Token, token_views, tokens_chars, tokens_text, tokens_width,
};
use crate::units::{MAX_TEXT_CHARS, PER_CHAR_LIMIT};
use crate::typography::TextLayoutEngine;
use vstd::prelude::*;

verus! {

/// Whether a word may be split before position `p`, given whether its
/// first character is an upper-case letter.
///
/// Words of fewer than six characters and words that start with an
/// upper-case letter are never split. A split leaves at least three
/// characters before it and more than three after it, and follows a vowel.
pub open spec fn is_split_point(w: Seq<char>, starts_upper: bool, p: int) -> bool {
    &&& w.len() >= 6
    &&& !starts_upper
    &&& 3 <= p < w.len() - 3
    &&& is_vowel(w[p - 1])
}

/// Whether a word may be split before position `p`.
pub open spec fn is_hyphenation_point(w: Seq<char>, p: int) -> bool {
    is_split_point(w, unicode_uppercase(w[0]), p)
}

/// A word of fewer than six characters, or one that starts with an
/// upper-case letter, has no place at which it may be split.
pub proof fn lemma_hyphenation_guard(w: Seq<char>, p: int)
    requires
        w.len() < 6 || unicode_uppercase(w[0]),
    ensures
        !is_hyphenation_point(w, p),
{
}

/// `v` lists, in ascending order and once each, exactly the positions for
/// which `pred` holds.
pub open spec fn lists_exactly(v: Seq<usize>, pred: spec_fn(int) -> bool) -> bool {
    &&& forall|a: int, b: int| 0 <= a < b < v.len() ==> v[a] < v[b]
    &&& forall|k: int| 0 <= k < v.len() ==> pred(#[trigger] v[k] as int)
    &&& forall|p: int| #[trigger] pred(p) ==> exists|k: int| 0 <= k < v.len() && v[k] == p
}

/// Whether a line may end after the token `t`: after a space, after a
/// comma or semicolon, and after a soft hyphen.
pub open spec fn breaks_after(t: Token) -> bool {
    match t {
        Token::Space => true,
        Token::DiscretionaryHyphen => true,
        Token::Punctuation(c) => c == ',' || c == ';',
        Token::Word(_) => false,
    }
}

/// Whether a line may end before token `k`: after a token that allows it,
/// and at the end of the paragraph.
pub open spec fn legal_break(ts: Seq<Token>, k: int) -> bool {
    &&& 0 <= k <= ts.len()
    &&& (k == ts.len() || (k >= 1 && breaks_after(ts[k - 1])))
}

/// The positions between the tokens of a paragraph at which a line may end.
pub open spec fn legal_set(ts: Seq<Token>) -> Set<int> {
    Set::new(|k: int| legal_break(ts, k))
}

/// Whether `p` is among the first `upto` entries of `v`.
pub open spec fn listed(v: Seq<usize>, upto: int, p: int) -> bool {
    exists|x: int| 0 <= x < upto && v[x] == p
}

/// The numbers of a sequence of machine integers.
pub open spec fn as_ints(v: Seq<usize>) -> Seq<int> {
    v.map_values(|x: usize| x as int)
}

/// The last place, not beyond `p`, at which the word `w` may be split so
/// that a line of width `base` before the word, with what stands before the
/// split, is no wider than `max_width`; zero where there is none.
/// `starts_upper` tells whether the first character of the word is an
/// upper-case letter.
pub open spec fn fitting_place(
    ctx: FontContext,
    w: Seq<char>,
    starts_upper: bool,
    is_chinese: bool,
    base: int,
    max_width: int,
    p: int,
) -> int
    decreases p,
{
    if p < 3 {
        0
    } else if is_split_point(w, starts_upper, p) && base + ctx.text_width(
        w.take(p),
        is_chinese,
    ) <= max_width {
        p
    } else {
        fitting_place(ctx, w, starts_upper, is_chinese, base, max_width, p - 1)
    }
}

/// The last hyphenation point of the word `w`, not beyond `p`, at which a
/// line of width `base` before the word, with what stands before the
/// point, is no wider than `max_width`; zero where there is none.
pub open spec fn fitting_point(
    ctx: FontContext,
    w: Seq<char>,
    is_chinese: bool,
    base: int,
    max_width: int,
    p: int,
) -> int {
    fitting_place(ctx, w, unicode_uppercase(w[0]), is_chinese, base, max_width, p)
}

/// Where token `j` of a line that begins at `line_start` may be split so
/// that the line still fits: the last such place of a word, zero for any
/// other token and where there is no such place.
pub open spec fn split_of(
    ctx: FontContext,
    ts: Seq<Token>,
    is_chinese: bool,
    max_width: int,
    line_start: int,
    j: int,
) -> int {
    match ts[j] {
        Token::Word(w) => fitting_point(
            ctx,
            w,
            is_chinese,
            tokens_width(ctx, ts.subrange(line_start, j), is_chinese),
            max_width,
            w.len() as int,
        ),
        _ => 0,
    }
}

/// The last token from `j` down to `lower` that may be split so that the
/// line still fits; `lower - 1` where there is none.
pub open spec fn split_token(
    ctx: FontContext,
    ts: Seq<Token>,
    is_chinese: bool,
    max_width: int,
    line_start: int,
    j: int,
    lower: int,
) -> int
    decreases j - lower + 1,
{
    if j < lower || j < 0 || j >= ts.len() {
        lower - 1
    } else if split_of(ctx, ts, is_chinese, max_width, line_start, j) >= 3 {
        j
    } else {
        split_token(ctx, ts, is_chinese, max_width, line_start, j - 1, lower)
    }
}

/// The tokens with the word at `j` split before its character `p` into two
/// words.
pub open spec fn split_word(ts: Seq<Token>, j: int, p: int) -> Seq<Token> {
    ts.subrange(0, j).push(Token::Word(ts[j]->Word_0.take(p))).push(
        Token::Word(ts[j]->Word_0.skip(p)),
    ) + ts.subrange(j + 1, ts.len() as int)
}

/// The legal line ends of a paragraph in which the word at `j` has been
/// split: those before the word stay, the place between its two parts is
/// none, and those after it lie one token further on.
pub open spec fn shifted(legal: Set<int>, j: int) -> Set<int> {
    Set::new(
        |k: int|
            if k <= j {
                legal.contains(k)
            } else {
                k != j + 1 && legal.contains(k - 1)
            },
    )
}

/// A paragraph filled into lines: its tokens, of which some words may have
/// been split in two, and where each line ends.
pub struct Filling {
    pub tokens: Seq<Token>,
    pub breaks: Seq<int>,
}

/// The filling that greedy filling gives from the state of its scan.
///
/// `line_start` is where the current line begins, `i` the position under
/// test and `best` the furthest legal line end of this line that still
/// fits. While the tokens up to `i` fit, the scan moves on. On overflow the
/// line ends at the furthest legal place that fits: inside a Latin word
/// that stands after `best` and can be split so that its first part fits,
/// the word then becoming two; else at `best`; without one, before the
/// token that overflowed; and where that would leave the line empty, after
/// it. The end of the paragraph ends the last line. A paragraph that holds
/// as many tokens as a paragraph may hold is not split further.
pub open spec fn greedy_fill(
    ctx: FontContext,
    ts: Seq<Token>,
    is_chinese: bool,
    legal: Set<int>,
    max_width: int,
    line_start: int,
    i: int,
    best: int,
) -> Filling
    decreases MAX_TEXT_CHARS - ts.len(), ts.len() - line_start, ts.len() + 1 - i,
{
    if line_start < 0 || i <= line_start || i > ts.len() {
        Filling {
            tokens: ts,
            breaks: if 0 <= line_start < ts.len() {
                seq![ts.len() as int]
            } else {
                Seq::empty()
            },
        }
    } else if tokens_width(ctx, ts.subrange(line_start, i), is_chinese) <= max_width {
        greedy_fill(
            ctx,
            ts,
            is_chinese,
            legal,
            max_width,
            line_start,
            i + 1,
            if legal.contains(i) {
                i
            } else {
                best
            },
        )
    } else {
        let lower = if best > line_start {
            best
        } else {
            line_start
        };
        let j = split_token(ctx, ts, is_chinese, max_width, line_start, i - 1, lower);
        if !is_chinese && ts.len() < MAX_TEXT_CHARS && lower <= j < ts.len() {
            let rest = greedy_fill(
                ctx,
                split_word(ts, j, split_of(ctx, ts, is_chinese, max_width, line_start, j)),
                is_chinese,
                shifted(legal, j),
                max_width,
                j + 1,
                j + 2,
                j + 1,
            );
            Filling { tokens: rest.tokens, breaks: seq![j + 1] + rest.breaks }
        } else {
            let at = if best > line_start {
                best
            } else if i - 1 > line_start {
                i - 1
            } else {
                i
            };
            if line_start < at <= ts.len() {
                let rest = greedy_fill(ctx, ts, is_chinese, legal, max_width, at, at + 1, at);
                Filling { tokens: rest.tokens, breaks: seq![at] + rest.breaks }
            } else {
                Filling { tokens: ts, breaks: Seq::empty() }
            }
        }
    }
}

/// The filling of a paragraph.
pub open spec fn filling(
    ctx: FontContext,
    ts: Seq<Token>,
    is_chinese: bool,
    legal: Set<int>,
    max_width: int,
) -> Filling {
    greedy_fill(ctx, ts, is_chinese, legal, max_width, 0, 1, 0)
}

/// The lines that end at `breaks`, the first starting at `start`, are not
/// empty, lie within the paragraph, and each of them either fits the width
/// or is a single token.
pub open spec fn lines_fit(
    ctx: FontContext,
    ts: Seq<Token>,
    is_chinese: bool,
    max_width: int,
    start: int,
    breaks: Seq<int>,
) -> bool
    decreases breaks.len(),
{
    breaks.len() == 0 || {
        &&& start < breaks[0] <= ts.len()
        &&& (tokens_width(ctx, ts.subrange(start, breaks[0]), is_chinese) <= max_width
            || breaks[0] == start + 1)
        &&& lines_fit(ctx, ts, is_chinese, max_width, breaks[0], breaks.drop_first())
    }
}

/// A place that fitting finds is a place at which the word may be split
/// and the line fits.
pub proof fn lemma_fitting_place(
    ctx: FontContext,
    w: Seq<char>,
    starts_upper: bool,
    is_chinese: bool,
    base: int,
    max_width: int,
    q: int,
)
    ensures
        fitting_place(ctx, w, starts_upper, is_chinese, base, max_width, q) == 0 || ({
            let p = fitting_place(ctx, w, starts_upper, is_chinese, base, max_width, q);
            &&& 3 <= p <= q
            &&& is_split_point(w, starts_upper, p)
            &&& base + ctx.text_width(w.take(p), is_chinese) <= max_width
        }),
    decreases q,
{
    if q >= 3 {
        lemma_fitting_place(ctx, w, starts_upper, is_chinese, base, max_width, q - 1);
    }
}

/// Places at which the word may not be split are passed over.
pub proof fn lemma_fitting_skip(
    ctx: FontContext,
    w: Seq<char>,
    starts_upper: bool,
    is_chinese: bool,
    base: int,
    max_width: int,
    q: int,
    p: int,
)
    requires
        p <= q,
        forall|x: int| p < x <= q ==> !#[trigger] is_split_point(w, starts_upper, x),
    ensures
        fitting_place(ctx, w, starts_upper, is_chinese, base, max_width, q) == fitting_place(
            ctx,
            w,
            starts_upper,
            is_chinese,
            base,
            max_width,
            p,
        ),
    decreases q - p,
{
    if p < q {
        lemma_fitting_skip(ctx, w, starts_upper, is_chinese, base, max_width, q - 1, p);
    }
}

/// A token that the search for a split finds is a word with a fitting
/// place.
pub proof fn lemma_split_token(
    ctx: FontContext,
    ts: Seq<Token>,
    is_chinese: bool,
    max_width: int,
    line_start: int,
    j: int,
    lower: int,
)
    ensures
        ({
            let r = split_token(ctx, ts, is_chinese, max_width, line_start, j, lower);
            r == lower - 1 || (lower <= r <= j && 0 <= r < ts.len() && split_of(
                ctx,
                ts,
                is_chinese,
                max_width,
                line_start,
                r,
            ) >= 3)
        }),
    decreases j - lower + 1,
{
    if !(j < lower || j < 0 || j >= ts.len()) {
        lemma_split_token(ctx, ts, is_chinese, max_width, line_start, j - 1, lower);
    }
}

/// Splitting a word keeps the tokens before it, puts the two parts in its
/// place, and keeps the text of the paragraph.
pub proof fn lemma_split_word(ts: Seq<Token>, j: int, p: int)
    requires
        0 <= j < ts.len(),
        ts[j] is Word,
        0 <= p <= ts[j]->Word_0.len(),
    ensures
        split_word(ts, j, p).len() == ts.len() + 1,
        forall|k: int| 0 <= k < j ==> #[trigger] split_word(ts, j, p)[k] == ts[k],
        split_word(ts, j, p)[j] == Token::Word(ts[j]->Word_0.take(p)),
        split_word(ts, j, p)[j + 1] == Token::Word(ts[j]->Word_0.skip(p)),
        forall|k: int| j < k < ts.len() ==> #[trigger] split_word(ts, j, p)[k + 1] == ts[k],
        tokens_text(split_word(ts, j, p)) == tokens_text(ts),
        tokens_chars(split_word(ts, j, p)) == tokens_chars(ts),
{
    let w = ts[j]->Word_0;
    let a = ts.subrange(0, j);
    let c = ts.subrange(j + 1, ts.len() as int);
    let head = Token::Word(w.take(p));
    let tail = Token::Word(w.skip(p));
    assert(ts[j] == Token::Word(w));
    assert(ts == (a + seq![ts[j]]) + c);
    assert(split_word(ts, j, p) == ((a + seq![head]) + seq![tail]) + c);
    lemma_tokens_concat(a + seq![ts[j]], c);
    lemma_tokens_concat(a, seq![ts[j]]);
    lemma_tokens_concat((a + seq![head]) + seq![tail], c);
    lemma_tokens_concat(a + seq![head], seq![tail]);
    lemma_tokens_concat(a, seq![head]);
    lemma_single_token(arbitrary(), ts[j], true);
    lemma_single_token(arbitrary(), head, true);
    lemma_single_token(arbitrary(), tail, true);
    assert(w.take(p) + w.skip(p) == w);
    assert((tokens_text(a) + w.take(p)) + w.skip(p) == tokens_text(a) + w);
}

/// From any state that its scan reaches, greedy filling keeps the text of
/// the paragraph and the tokens of the lines already ended, and yields
/// lines that fit or hold a single token, the last of which ends the
/// paragraph.
#[verifier::rlimit(60)]
pub proof fn lemma_greedy_fits(
    ctx: FontContext,
    ts: Seq<Token>,
    is_chinese: bool,
    legal: Set<int>,
    max_width: int,
    line_start: int,
    i: int,
    best: int,
)
    requires
        0 <= line_start <= best < i <= ts.len() + 1,
        line_start <= ts.len(),
        best == line_start || tokens_width(ctx, ts.subrange(line_start, best), is_chinese)
            <= max_width,
        i - 1 == line_start || tokens_width(ctx, ts.subrange(line_start, i - 1), is_chinese)
            <= max_width,
    ensures
        ({
            let f = greedy_fill(ctx, ts, is_chinese, legal, max_width, line_start, i, best);
            &&& ts.len() <= f.tokens.len()
            &&& ts.len() <= MAX_TEXT_CHARS ==> f.tokens.len() <= MAX_TEXT_CHARS
            &&& forall|k: int| 0 <= k < line_start ==> #[trigger] f.tokens[k] == ts[k]
            &&& tokens_text(f.tokens) == tokens_text(ts)
            &&& tokens_chars(f.tokens) == tokens_chars(ts)
            &&& lines_fit(ctx, f.tokens, is_chinese, max_width, line_start, f.breaks)
            &&& f.breaks.len() <= f.tokens.len() - line_start
            &&& line_start < ts.len() ==> f.breaks.len() > 0 && f.breaks.last()
                == f.tokens.len()
        }),
    decreases MAX_TEXT_CHARS - ts.len(), ts.len() - line_start, ts.len() + 1 - i,
{
    let f = greedy_fill(ctx, ts, is_chinese, legal, max_width, line_start, i, best);
    if i > ts.len() {
        if line_start < ts.len() {
            assert(f.breaks == seq![ts.len() as int]);
            assert(f.breaks[0] == ts.len());
            assert(f.breaks.drop_first().len() == 0);
            assert(lines_fit(
                ctx,
                ts,
                is_chinese,
                max_width,
                ts.len() as int,
                f.breaks.drop_first(),
            ));
        } else {
            assert(f.breaks.len() == 0);
        }
    } else if tokens_width(ctx, ts.subrange(line_start, i), is_chinese) <= max_width {
        let nb = if legal.contains(i) {
            i
        } else {
            best
        };
        lemma_greedy_fits(ctx, ts, is_chinese, legal, max_width, line_start, i + 1, nb);
    } else {
        let lower = if best > line_start {
            best
        } else {
            line_start
        };
        let j = split_token(ctx, ts, is_chinese, max_width, line_start, i - 1, lower);
        if !is_chinese && ts.len() < MAX_TEXT_CHARS && lower <= j < ts.len() {
            lemma_split_token(ctx, ts, is_chinese, max_width, line_start, i - 1, lower);
            let p = split_of(ctx, ts, is_chinese, max_width, line_start, j);
            let w = ts[j]->Word_0;
            let base = tokens_width(ctx, ts.subrange(line_start, j), is_chinese);
            lemma_fitting_place(
                ctx,
                w,
                unicode_uppercase(w[0]),
                is_chinese,
                base,
                max_width,
                w.len() as int,
            );
            let cut = split_word(ts, j, p);
            lemma_split_word(ts, j, p);
            let rest = greedy_fill(
                ctx,
                cut,
                is_chinese,
                shifted(legal, j),
                max_width,
                j + 1,
                j + 2,
                j + 1,
            );
            lemma_greedy_fits(ctx, cut, is_chinese, shifted(legal, j), max_width, j + 1, j + 2, j + 1);
            assert(f.tokens == rest.tokens);
            assert(f.breaks == seq![j + 1] + rest.breaks);
            assert(f.breaks[0] == j + 1);
            assert(f.breaks.drop_first() == rest.breaks);
            let line = f.tokens.subrange(line_start, j + 1);
            assert(line.drop_last() == ts.subrange(line_start, j));
            assert(line.last() == Token::Word(w.take(p)));
            assert(tokens_width(ctx, line, is_chinese) <= max_width);
            assert(f.breaks.last() == rest.breaks.last());
        } else {
            let at = if best > line_start {
                best
            } else if i - 1 > line_start {
                i - 1
            } else {
                i
            };
            let rest = greedy_fill(ctx, ts, is_chinese, legal, max_width, at, at + 1, at);
            lemma_greedy_fits(ctx, ts, is_chinese, legal, max_width, at, at + 1, at);
            assert(line_start < at <= ts.len());
            assert(f.tokens == rest.tokens);
            assert(f.breaks == seq![at] + rest.breaks);
            assert(f.breaks[0] == at);
            assert(f.breaks.drop_first() == rest.breaks);
            assert(f.tokens.subrange(line_start, at) == ts.subrange(line_start, at));
            if at < ts.len() {
                assert(f.breaks.last() == rest.breaks.last());
            } else {
                assert(rest.breaks.len() == 0);
            }
        }
    }
}

/// Filling keeps the text of a paragraph, and no line of a filled paragraph
/// is wider than the width allowed, unless it holds a single token.
pub proof fn lemma_no_overflow(
    ctx: FontContext,
    ts: Seq<Token>,
    is_chinese: bool,
    legal: Set<int>,
    max_width: int,
)
    ensures
        ({
            let f = filling(ctx, ts, is_chinese, legal, max_width);
            &&& ts.len() <= f.tokens.len()
            &&& ts.len() <= MAX_TEXT_CHARS ==> f.tokens.len() <= MAX_TEXT_CHARS
            &&& tokens_text(f.tokens) == tokens_text(ts)
            &&& tokens_chars(f.tokens) == tokens_chars(ts)
            &&& lines_fit(ctx, f.tokens, is_chinese, max_width, 0, f.breaks)
            &&& f.breaks.len() <= f.tokens.len()
            &&& ts.len() > 0 ==> f.breaks.len() > 0 && f.breaks.last() == f.tokens.len()
        }),
{
    lemma_greedy_fits(ctx, ts, is_chinese, legal, max_width, 0, 1, 0);
}

/// Line ends that make fitting lines ascend strictly and stay within the
/// paragraph.
pub proof fn lemma_breaks_ascend(
    ctx: FontContext,
    ts: Seq<Token>,
    is_chinese: bool,
    max_width: int,
    start: int,
    breaks: Seq<int>,
)
    requires
        lines_fit(ctx, ts, is_chinese, max_width, start, breaks),
    ensures
        forall|k: int| 0 <= k < breaks.len() ==> start < #[trigger] breaks[k] <= ts.len(),
        forall|k: int| 1 <= k < breaks.len() ==> breaks[k - 1] < #[trigger] breaks[k],
    decreases breaks.len(),
{
    if breaks.len() > 0 {
        let rest = breaks.drop_first();
        lemma_breaks_ascend(ctx, ts, is_chinese, max_width, breaks[0], rest);
        assert forall|k: int| 0 <= k < breaks.len() implies start < #[trigger] breaks[k]
            <= ts.len() by {
            if k > 0 {
                assert(rest[k - 1] == breaks[k]);
            }
        }
        assert forall|k: int| 1 <= k < breaks.len() implies breaks[k - 1] < #[trigger] breaks[k] by {
            assert(rest[k - 1] == breaks[k]);
            if k > 1 {
                assert(rest[k - 2] == breaks[k - 1]);
            }
        }
    }
}

/// Of lines that fit, each one either fits the width or holds one token.
pub proof fn lemma_lines_fit_each(
    ctx: FontContext,
    ts: Seq<Token>,
    is_chinese: bool,
    max_width: int,
    start: int,
    breaks: Seq<int>,
)
    requires
        lines_fit(ctx, ts, is_chinese, max_width, start, breaks),
    ensures
        forall|k: int|
            0 <= k < breaks.len() ==> tokens_width(
                ctx,
                ts.subrange(
                    if k == 0 {
                        start
                    } else {
                        breaks[k - 1]
                    },
                    #[trigger] breaks[k],
                ),
                is_chinese,
            ) <= max_width || breaks[k] == (if k == 0 {
                start
            } else {
                breaks[k - 1]
            }) + 1,
    decreases breaks.len(),
{
    if breaks.len() > 0 {
        let rest = breaks.drop_first();
        lemma_lines_fit_each(ctx, ts, is_chinese, max_width, breaks[0], rest);
        assert forall|k: int| 0 <= k < breaks.len() implies tokens_width(
            ctx,
            ts.subrange(
                if k == 0 {
                    start
                } else {
                    breaks[k - 1]
                },
                #[trigger] breaks[k],
            ),
            is_chinese,
        ) <= max_width || breaks[k] == (if k == 0 {
            start
        } else {
            breaks[k - 1]
        }) + 1 by {
            if k > 0 {
                assert(rest[k - 1] == breaks[k]);
                if k > 1 {
                    assert(rest[k - 2] == breaks[k - 1]);
                }
            }
        }
    }
}

/// The positions at which a word of the given characters may be split, in
/// ascending order, given whether its first character is an upper-case
/// letter; `None` where there is none.
pub fn hyphenation_points_of(chars: &Vec<char>, starts_upper: bool) -> (points: Option<Vec<usize>>)
    ensures
        match points {
            Some(v) => v@.len() > 0 && lists_exactly(
                v@,
                |p: int| is_split_point(chars@, starts_upper, p),
            ),
            None => forall|p: int| !is_split_point(chars@, starts_upper, p),
        },
{
    let len = chars.len();
    if len < 6 || starts_upper {
        return None;
    }
    let mut points: Vec<usize> = Vec::new();
    let end: usize = len - 3;
    let mut i: usize = 3;
    while i < end
        invariant
            len == chars.len(),
            len >= 6,
            end == len - 3,
            !starts_upper,
            3 <= i <= end,
            forall|a: int, b: int| 0 <= a < b < points@.len() ==> points@[a] < points@[b],
            forall|k: int|
                0 <= k < points@.len() ==> points@[k] < i && is_split_point(
                    chars@,
                    starts_upper,
                    #[trigger] points@[k] as int,
                ),
            forall|p: int|
                p < i && #[trigger] is_split_point(chars@, starts_upper, p) ==> exists|k: int|
                    0 <= k < points@.len() && points@[k] == p,
        decreases end - i,
    {
        if char_is_vowel(chars[i - 1]) {
            let ghost old_points = points@;
            points.push(i);
            assert(forall|k: int| 0 <= k < old_points.len() ==> points@[k] == old_points[k]);
            assert(points@[old_points.len() as int] == i);
            assert forall|p: int|
                p < i + 1 && #[trigger] is_split_point(chars@, starts_upper, p) implies exists|
                k: int,
            | 0 <= k < points@.len() && points@[k] == p by {
                if p < i {
                    let k = choose|k: int| 0 <= k < old_points.len() && old_points[k] == p;
                    assert(points@[k] == p);
                } else {
                    assert(points@[old_points.len() as int] == p);
                }
            }
        }
        i += 1;
    }
    if points.len() == 0 {
        assert forall|p: int| !is_split_point(chars@, starts_upper, p) by {
            if is_split_point(chars@, starts_upper, p) {
                let k = choose|k: int| 0 <= k < points@.len() && points@[k] == p;
            }
        }
        None
    } else {
        assert(lists_exactly(points@, |p: int| is_split_point(chars@, starts_upper, p)));
        Some(points)
    }
}

/// A place at which a word is split: the position of the word among the
/// tokens, and the number of its characters that stand before the split.
pub struct SplitPlace {
    pub token: usize,
    pub at: usize,
}

/// The first `p` of the characters.
pub fn prefix_of(chars: &Vec<char>, p: usize) -> (head: Vec<char>)
    requires
        p <= chars.len(),
    ensures
        head@ == chars@.take(p as int),
{
    let mut head: Vec<char> = Vec::new();
    let mut i: usize = 0;
    while i < p
        invariant
            i <= p <= chars.len(),
            head@ == chars@.take(i as int),
        decreases p - i,
    {
        head.push(chars[i]);
        i += 1;
        assert(chars@.take(i as int) == chars@.take(i - 1).push(chars@[i - 1]));
    }
    head
}

/// The characters from the one numbered `p` on.
pub fn suffix_of(chars: &Vec<char>, p: usize) -> (tail: Vec<char>)
    requires
        p <= chars.len(),
    ensures
        tail@ == chars@.skip(p as int),
{
    let mut tail: Vec<char> = Vec::new();
    let mut i: usize = p;
    while i < chars.len()
        invariant
            p <= i <= chars.len(),
            tail@ == chars@.subrange(p as int, i as int),
        decreases chars.len() - i,
    {
        tail.push(chars[i]);
        i += 1;
        assert(chars@.subrange(p as int, i as int) == chars@.subrange(p as int, i - 1).push(
            chars@[i - 1],
        ));
    }
    assert(chars@.subrange(p as int, chars@.len() as int) == chars@.skip(p as int));
    tail
}

/// Splits the word at position `j` before its character `p` into two
/// words.
pub fn split_at(tokens: &mut Vec<TextToken>, j: usize, p: usize)
    requires
        j < old(tokens)@.len(),
        token_views(old(tokens)@)[j as int] is Word,
        p <= token_views(old(tokens)@)[j as int]->Word_0.len(),
    ensures
        token_views(final(tokens)@) == split_word(token_views(old(tokens)@), j as int, p as int),
{
    let ghost ts = token_views(tokens@);
    let n: usize = tokens.len();
    assert(ts[j as int] == tokens@[j as int]@);
    let chars: Vec<char> = match &tokens[j] {
        TextToken::Word(word) => string_to_chars(word.as_str()),
        _ => Vec::new(),
    };
    let head = chars_to_string(&prefix_of(&chars, p));
    let tail = chars_to_string(&suffix_of(&chars, p));
    tokens[j] = TextToken::Word(head);
    assert(tokens@.len() == n);
    tokens.insert(j + 1, TextToken::Word(tail));
    proof {
        lemma_split_word(ts, j as int, p as int);
        assert(token_views(tokens@) =~= split_word(ts, j as int, p as int));
    }
}

impl TextLayoutEngine {
    /// The positions at which `word` may be split, in ascending order; `None`
    /// where there is none.
    pub fn find_hyphenation_points(&self, word: &str) -> (points: Option<Vec<usize>>)
        ensures
            match points {
                Some(v) => v@.len() > 0 && lists_exactly(
                    v@,
                    |p: int| is_hyphenation_point(word@, p),
                ),
                None => forall|p: int| !is_hyphenation_point(word@, p),
            },
            (word@.len() < 6 || unicode_uppercase(word@[0])) ==> points is None,
    {
        let chars = string_to_chars(word);
        let starts_upper = chars.len() > 0 && char_is_uppercase(chars[0]);
        let points = hyphenation_points_of(&chars, starts_upper);
        proof {
            assert forall|p: int|
                is_hyphenation_point(word@, p) == is_split_point(chars@, starts_upper, p) by {}
            if points is Some {
                let v = points->0;
                {
                    let a = |p: int| is_split_point(chars@, starts_upper, p);
                    let b = |p: int| is_hyphenation_point(word@, p);
                    assert(lists_exactly(v@, a));
                    assert(a(v@[0] as int));
                    assert forall|p: int| #[trigger] b(p) implies exists|k: int|
                        0 <= k < v@.len() && v@[k] == p by {
                        assert(a(p));
                    }
                    assert forall|k: int| 0 <= k < v@.len() implies b(#[trigger] v@[k] as int) by {
                        assert(a(v@[k] as int));
                    }
                    assert(lists_exactly(v@, b));
                }
            }
        }
        points
    }

    /// The positions between the tokens at which a line may end, in
    /// ascending order. The script makes no difference to them: where a
    /// word is split is decided while the lines are filled.
    pub fn find_breakpoints(&self, tokens: &Vec<TextToken>, _is_chinese: bool) -> (breakpoints:
        Vec<usize>)
        ensures
            lists_exactly(breakpoints@, |k: int| legal_break(token_views(tokens@), k)),
    {
        let ghost ts = token_views(tokens@);
        let ghost pred = |k: int| legal_break(ts, k);
        let n = tokens.len();
        let mut out: Vec<usize> = Vec::new();
        if n == 0 {
            out.push(0);
            proof {
                assert(legal_break(ts, 0));
                assert forall|p: int| #[trigger] pred(p) implies exists|y: int|
                    0 <= y < out@.len() && out@[y] == p by {
                    assert(legal_break(ts, p));
                    assert(out@[0] == p);
                }
            }
            return out;
        }
        let mut k: usize = 0;
        while k < n
            invariant
                n == tokens.len(),
                n > 0,
                ts == token_views(tokens@),
                pred == (|k: int| legal_break(ts, k)),
                k <= n,
                forall|a: int, b: int| 0 <= a < b < out@.len() ==> out@[a] < out@[b],
                forall|x: int| 0 <= x < out@.len() ==> 1 <= #[trigger] out@[x] <= k,
                forall|x: int| 0 <= x < out@.len() ==> pred(#[trigger] out@[x] as int),
                forall|q: int|
                    1 <= q <= k && #[trigger] pred(q) ==> exists|y: int|
                        0 <= y < out@.len() && out@[y] == q,
            decreases n - k,
        {
            let allowed: bool = k + 1 == n || match &tokens[k] {
                TextToken::Space => true,
                TextToken::DiscretionaryHyphen => true,
                TextToken::Punctuation(c) => *c == ',' || *c == ';',
                TextToken::Word(_) => false,
            };
            proof {
                assert(ts[k as int] == tokens@[k as int]@);
                assert(allowed == legal_break(ts, k + 1));
            }
            let ghost prior = out@;
            if allowed {
                out.push(k + 1);
                proof {
                    assert(pred(k + 1));
                }
            }
            proof {
                assert forall|q: int| 1 <= q <= k + 1 && #[trigger] pred(q) implies exists|
                    y: int,
                | 0 <= y < out@.len() && out@[y] == q by {
                    if q == k + 1 {
                        assert(allowed);
                        assert(out@[prior.len() as int] == q);
                    } else {
                        let y = choose|y: int| 0 <= y < prior.len() && prior[y] == q;
                        assert(out@[y] == q);
                    }
                }
            }
            k += 1;
        }
        proof {
            assert forall|q: int| #[trigger] pred(q) implies exists|y: int|
                0 <= y < out@.len() && out@[y] == q by {
                assert(legal_break(ts, q));
                assert(q != 0);
            }
        }
        out
    }

    /// The last place at which the word of the characters `chars` may be
    /// split so that a line of width `base` before the word, with the first
    /// part of the word, is no wider than `max_width`; zero where there is
    /// none. `starts_upper` tells whether the first character of the word
    /// is an upper-case letter.
    pub fn fitting_split_of(
        &self,
        chars: &Vec<char>,
        starts_upper: bool,
        base: i64,
        max_width: i64,
        is_chinese: bool,
    ) -> (p: usize)
        requires
            self.font_context.valid(),
            chars@.len() <= MAX_TEXT_CHARS,
            -2_000_000_000_000_000_000 <= base <= 2_000_000_000_000_000_000,
        ensures
            p == fitting_place(
                self.font_context,
                chars@,
                starts_upper,
                is_chinese,
                base as int,
                max_width as int,
                chars@.len() as int,
            ),
            p == 0 || 3 <= p < chars@.len(),
    {
        let ghost ctx = self.font_context;
        let ghost w = chars@;
        let n = chars.len();
        if n < 6 || starts_upper {
            proof {
                lemma_fitting_skip(
                    ctx,
                    w,
                    starts_upper,
                    is_chinese,
                    base as int,
                    max_width as int,
                    n as int,
                    0,
                );
            }
            return 0;
        }
        let mut p: usize = n - 4;
        proof {
            lemma_fitting_skip(
                ctx,
                w,
                starts_upper,
                is_chinese,
                base as int,
                max_width as int,
                n as int,
                p as int,
            );
        }
        while p >= 3
            invariant
                ctx == self.font_context,
                ctx.valid(),
                w == chars@,
                n == chars.len(),
                6 <= n <= MAX_TEXT_CHARS,
                !starts_upper,
                -2_000_000_000_000_000_000 <= base <= 2_000_000_000_000_000_000,
                2 <= p <= n - 4,
                fitting_place(
                    ctx,
                    w,
                    starts_upper,
                    is_chinese,
                    base as int,
                    max_width as int,
                    n as int,
                ) == fitting_place(
                    ctx,
                    w,
                    starts_upper,
                    is_chinese,
                    base as int,
                    max_width as int,
                    p as int,
                ),
            decreases p,
        {
            if char_is_vowel(chars[p - 1]) {
                let head = prefix_of(chars, p);
                let width = self.font_context.measure_chars(&head, is_chinese);
                proof {
                    ctx.lemma_text_width_bound(head@, is_chinese);
                    assert(p * PER_CHAR_LIMIT <= 1_000_000 * PER_CHAR_LIMIT) by (nonlinear_arith)
                        requires
                            p <= 1_000_000,
                    ;
                }
                if base + width <= max_width {
                    return p;
                }
            }
            p -= 1;
        }
        0
    }

    /// The last hyphenation point of the word of the characters `chars` at
    /// which a line of width `base` before the word, with the first part
    /// of the word, is no wider than `max_width`; zero where there is none.
    pub fn fitting_split(&self, chars: &Vec<char>, base: i64, max_width: i64, is_chinese: bool) -> (p:
        usize)
        requires
            self.font_context.valid(),
            chars@.len() <= MAX_TEXT_CHARS,
            -2_000_000_000_000_000_000 <= base <= 2_000_000_000_000_000_000,
        ensures
            p == fitting_point(
                self.font_context,
                chars@,
                is_chinese,
                base as int,
                max_width as int,
                chars@.len() as int,
            ),
            p == 0 || 3 <= p < chars@.len(),
    {
        let starts_upper = chars.len() > 0 && char_is_uppercase(chars[0]);
        self.fitting_split_of(chars, starts_upper, base, max_width, is_chinese)
    }

    /// Where token `k` of a line that begins at `line_start` may be split
    /// so that the line still fits; zero where it may not.
    pub fn split_point(
        &self,
        tokens: &Vec<TextToken>,
        line_start: usize,
        k: usize,
        max_width: i64,
        is_chinese: bool,
    ) -> (p: usize)
        requires
            self.font_context.valid(),
            line_start <= k < tokens.len(),
            tokens_chars(token_views(tokens@)) <= MAX_TEXT_CHARS,
        ensures
            p == split_of(
                self.font_context,
                token_views(tokens@),
                is_chinese,
                max_width as int,
                line_start as int,
                k as int,
            ),
            p >= 3 ==> token_views(tokens@)[k as int] is Word && p < token_views(
                tokens@,
            )[k as int]->Word_0.len(),
    {
        let ghost ts = token_views(tokens@);
        proof {
            assert(ts[k as int] == tokens@[k as int]@);
            lemma_subrange_chars(ts, k as int, k + 1);
            assert(ts.subrange(k as int, k + 1) == seq![ts[k as int]]);
            lemma_single_token(self.font_context, ts[k as int], is_chinese);
        }
        match &tokens[k] {
            TextToken::Word(word) => {
                let base = self.range_width(tokens, line_start, k, is_chinese);
                let chars = string_to_chars(word.as_str());
                self.fitting_split(&chars, base, max_width, is_chinese)
            },
            _ => 0,
        }
    }

    /// The last token from `from` down to `lower`, of a line that begins at
    /// `line_start`, that may be split so that the line still fits, with
    /// the place of the split; `None` where there is none.
    pub fn find_split(
        &self,
        tokens: &Vec<TextToken>,
        line_start: usize,
        from: usize,
        lower: usize,
        max_width: i64,
        is_chinese: bool,
    ) -> (found: Option<SplitPlace>)
        requires
            self.font_context.valid(),
            line_start <= lower <= from < tokens.len(),
            tokens_chars(token_views(tokens@)) <= MAX_TEXT_CHARS,
        ensures
            match found {
                Some(place) => {
                    &&& lower <= place.token <= from
                    &&& place.token == split_token(
                        self.font_context,
                        token_views(tokens@),
                        is_chinese,
                        max_width as int,
                        line_start as int,
                        from as int,
                        lower as int,
                    )
                    &&& place.at == split_of(
                        self.font_context,
                        token_views(tokens@),
                        is_chinese,
                        max_width as int,
                        line_start as int,
                        place.token as int,
                    )
                    &&& token_views(tokens@)[place.token as int] is Word
                    &&& 3 <= place.at < token_views(tokens@)[place.token as int]->Word_0.len()
                },
                None => split_token(
                    self.font_context,
                    token_views(tokens@),
                    is_chinese,
                    max_width as int,
                    line_start as int,
                    from as int,
                    lower as int,
                ) == lower - 1,
            },
    {
        let ghost ctx = self.font_context;
        let ghost ts = token_views(tokens@);
        let mut j: usize = from + 1;
        while j > lower
            invariant
                ctx == self.font_context,
                ctx.valid(),
                ts == token_views(tokens@),
                tokens_chars(ts) <= MAX_TEXT_CHARS,
                line_start <= lower <= j <= from + 1,
                from < tokens.len(),
                split_token(
                    ctx,
                    ts,
                    is_chinese,
                    max_width as int,
                    line_start as int,
                    from as int,
                    lower as int,
                ) == split_token(
                    ctx,
                    ts,
                    is_chinese,
                    max_width as int,
                    line_start as int,
                    j - 1,
                    lower as int,
                ),
            decreases j,
        {
            let k: usize = j - 1;
            let at = self.split_point(tokens, line_start, k, max_width, is_chinese);
            if at >= 3 {
                return Some(SplitPlace { token: k, at });
            }
            j -= 1;
        }
        None
    }

    /// Fills lines greedily: returns the tokens of the paragraph, of which
    /// some words may have been split in two, and where each line ends.
    ///
    /// `breakpoints` lists the positions between the tokens at which a line
    /// may end, in any order.
    pub fn greedy_line_breaks(
        &self,
        tokens: &Vec<TextToken>,
        breakpoints: &Vec<usize>,
        max_width: i64,
        is_chinese: bool,
    ) -> (filled: (Vec<TextToken>, Vec<usize>))
        requires
            self.font_context.valid(),
            supported(token_views(tokens@)),
        ensures
            token_views(filled.0@) == filling(
                self.font_context,
                token_views(tokens@),
                is_chinese,
                as_ints(breakpoints@).to_set(),
                max_width as int,
            ).tokens,
            as_ints(filled.1@) == filling(
                self.font_context,
                token_views(tokens@),
                is_chinese,
                as_ints(breakpoints@).to_set(),
                max_width as int,
            ).breaks,
            tokens_text(token_views(filled.0@)) == tokens_text(token_views(tokens@)),
            lines_fit(
                self.font_context,
                token_views(filled.0@),
                is_chinese,
                max_width as int,
                0,
                as_ints(filled.1@),
            ),
    {
        let ghost given = token_views(tokens@);
        let ghost listed_set = as_ints(breakpoints@).to_set();
        let ghost ctx = self.font_context;
        let ghost goal = filling(ctx, given, is_chinese, listed_set, max_width as int);
        proof {
            lemma_no_overflow(ctx, given, is_chinese, listed_set, max_width as int);
        }
        let n = tokens.len();
        let mut work: Vec<TextToken> = clone_tokens(tokens, 0, n);
        assert(work@ == tokens@);
        let mut breaks: Vec<usize> = Vec::new();
        if n == 0 {
            assert(as_ints(breaks@) == Seq::<int>::empty());
            return (work, breaks);
        }
        // mask[k - 1] tells whether position k is listed in `breakpoints`
        let mut mask: Vec<bool> = Vec::new();
        let mut f: usize = 0;
        while f < n
            invariant
                f <= n,
                mask@.len() == f,
                forall|x: int| 0 <= x < f ==> !mask@[x],
            decreases n - f,
        {
            mask.push(false);
            f += 1;
        }
        let mut b: usize = 0;
        while b < breakpoints.len()
            invariant
                b <= breakpoints.len(),
                mask@.len() == n,
                forall|k: int|
                    1 <= k <= n ==> (#[trigger] mask@[k - 1] <==> listed(breakpoints@, b as int, k)),
            decreases breakpoints.len() - b,
        {
            let p = breakpoints[b];
            let ghost prior = mask@;
            if 1 <= p && p <= n {
                mask[p - 1] = true;
            }
            proof {
                assert forall|k: int| 1 <= k <= n implies (#[trigger] mask@[k - 1] <==> listed(
                    breakpoints@,
                    b + 1,
                    k,
                )) by {
                    if k == p {
                        assert(breakpoints@[b as int] == k);
                    } else {
                        assert(mask@[k - 1] == prior[k - 1]);
                        if listed(breakpoints@, b + 1, k) {
                            let x = choose|x: int| 0 <= x < b + 1 && breakpoints@[x] == k;
                            assert(x < b);
                        }
                    }
                    if listed(breakpoints@, b as int, k) {
                        let x = choose|x: int| 0 <= x < b && breakpoints@[x] == k;
                        assert(0 <= x < b + 1 && breakpoints@[x] == k);
                    }
                }
            }
            b += 1;
        }
        let ghost mut legal = listed_set;
        proof {
            assert forall|k: int| 1 <= k <= n implies (#[trigger] mask@[k - 1] <==> legal.contains(
                k,
            )) by {
                let ints = as_ints(breakpoints@);
                if legal.contains(k) {
                    assert(ints.contains(k));
                    let x = choose|x: int| 0 <= x < ints.len() && ints[x] == k;
                    assert(breakpoints@[x] == k);
                    assert(listed(breakpoints@, breakpoints@.len() as int, k));
                }
                if listed(breakpoints@, breakpoints@.len() as int, k) {
                    let x = choose|x: int| 0 <= x < breakpoints@.len() && breakpoints@[x] == k;
                    assert(ints[x] == k);
                    assert(ints.contains(k));
                }
            }
        }
        let mut line_start: usize = 0;
        let mut i: usize = 1;
        let mut best: usize = 0;
        while i <= work.len()
            invariant
                ctx == self.font_context,
                ctx.valid(),
                goal == filling(ctx, given, is_chinese, listed_set, max_width as int),
                work@.len() > 0,
                supported(token_views(work@)),
                mask@.len() == work@.len(),
                forall|k: int|
                    1 <= k <= work@.len() ==> (#[trigger] mask@[k - 1] <==> legal.contains(k)),
                line_start <= best < i <= work@.len() + 1,
                line_start <= work@.len(),
                greedy_fill(
                    ctx,
                    token_views(work@),
                    is_chinese,
                    legal,
                    max_width as int,
                    line_start as int,
                    i as int,
                    best as int,
                ).tokens == goal.tokens,
                as_ints(breaks@) + greedy_fill(
                    ctx,
                    token_views(work@),
                    is_chinese,
                    legal,
                    max_width as int,
                    line_start as int,
                    i as int,
                    best as int,
                ).breaks == goal.breaks,
            decreases MAX_TEXT_CHARS - work@.len(), work@.len() - line_start, work@.len() + 1 - i,
        {
            let ghost ts = token_views(work@);
            let width: i64 = self.range_width(&work, line_start, i, is_chinese);
            if width <= max_width {
                if mask[i - 1] {
                    best = i;
                }
                i += 1;
            } else {
                let lower: usize = if best > line_start {
                    best
                } else {
                    line_start
                };
                let found: Option<SplitPlace> = if !is_chinese && work.len() < MAX_TEXT_CHARS {
                    self.find_split(&work, line_start, i - 1, lower, max_width, is_chinese)
                } else {
                    None
                };
                let ghost old_breaks = breaks@;
                match found {
                    Some(place) => {
                        let j: usize = place.token;
                        let ghost rest = greedy_fill(
                            ctx,
                            split_word(ts, j as int, place.at as int),
                            is_chinese,
                            shifted(legal, j as int),
                            max_width as int,
                            j + 1,
                            j + 2,
                            j + 1,
                        );
                        let ghost prior = mask@;
                        let ghost before = legal;
                        proof {
                            lemma_split_word(ts, j as int, place.at as int);
                        }
                        split_at(&mut work, j, place.at);
                        mask.insert(j, false);
                        breaks.push(j + 1);
                        proof {
                            legal = shifted(before, j as int);
                            assert(mask@ == prior.insert(j as int, false));
                            assert(token_views(work@).len() == ts.len() + 1);
                            assert(work@.len() == prior.len() + 1);
                            assert forall|k: int| 1 <= k <= work@.len() implies (
                            #[trigger] mask@[k - 1] <==> legal.contains(k)) by {
                                if k <= j {
                                    assert(mask@[k - 1] == prior[k - 1]);
                                    assert(prior[k - 1] <==> before.contains(k));
                                } else if k > j + 1 {
                                    let q = k - 1;
                                    assert(mask@[k - 1] == prior[q - 1]);
                                    assert(prior[q - 1] <==> before.contains(q));
                                } else {
                                    assert(!mask@[j as int]);
                                }
                            }
                            assert(as_ints(breaks@) == as_ints(old_breaks).push(j + 1));
                            assert(as_ints(old_breaks).push(j + 1) + rest.breaks == as_ints(
                                old_breaks,
                            ) + (seq![j + 1] + rest.breaks));
                        }
                        line_start = j + 1;
                        best = j + 1;
                        i = j + 2;
                    },
                    None => {
                        let at: usize = if best > line_start {
                            best
                        } else if i - 1 > line_start {
                            i - 1
                        } else {
                            i
                        };
                        let ghost rest = greedy_fill(
                            ctx,
                            ts,
                            is_chinese,
                            legal,
                            max_width as int,
                            at as int,
                            at + 1,
                            at as int,
                        );
                        breaks.push(at);
                        proof {
                            assert(as_ints(breaks@) == as_ints(old_breaks).push(at as int));
                            assert(as_ints(old_breaks).push(at as int) + rest.breaks == as_ints(
                                old_breaks,
                            ) + (seq![at as int] + rest.breaks));
                        }
                        line_start = at;
                        best = at;
                        i = at + 1;
                    },
                }
            }
        }
        let n: usize = work.len();
        if line_start < n {
            let ghost old_breaks = breaks@;
            breaks.push(n);
            proof {
                assert(as_ints(breaks@) == as_ints(old_breaks).push(n as int));
                assert(as_ints(old_breaks).push(n as int) == as_ints(old_breaks) + seq![n as int]);
            }
        } else {
            assert(as_ints(breaks@) + Seq::<int>::empty() == as_ints(breaks@));
        }
        (work, breaks)
    }

    /// The line ends that stand for an unbroken paragraph: the last legal
    /// break alone, or nothing where there is no legal break.
    pub fn optimize_line_breaks(&self, breakpoints: &Vec<usize>) -> (breaks: Vec<usize>)
        ensures
            breaks@ == if breakpoints@.len() == 0 {
                Seq::<usize>::empty()
            } else {
                seq![breakpoints@.last()]
            },
    {
        let mut breaks: Vec<usize> = Vec::new();
        if breakpoints.len() > 0 {
            breaks.push(breakpoints[breakpoints.len() - 1]);
        }
        breaks
    }
}

} // verus!
