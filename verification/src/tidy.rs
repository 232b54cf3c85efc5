//! The passes that tidy broken lines: widows and orphans, line density,
//! stacked hyphens and the rag.

use crate::fonts::{FontContext, Justification};
use crate::lines::{
    FormattedLine, lemma_measured_width, lemma_same_tokens_totals, lemma_totals_update, line_views,
    lines_chars, LineView, measured, texts_agree,
};
use crate::tokens::{
    clone_tokens, count_words, hyphen_at_end, lemma_counts_bounded, lemma_tokens_concat,
    lemma_width_concat, TextToken, Token, token_views, tokens_chars, tokens_text, tokens_to_text,
    tokens_width,
};
use crate::typography::TextLayoutEngine;
use crate::units::{
    abs, clamp, clamp_i64, div_trunc, lemma_trunc_div_bounds, MAX_LENGTH, MAX_TEXT_CHARS,
    trunc_div,
};
use vstd::prelude::*;
use vstd::string::StringExecFns;

verus! {

/// The number of tokens that move when the first word of a line is taken:
/// the spaces at the start of the line and the word that follows them. Where
/// something else follows the spaces, only the spaces move.
pub open spec fn leading_run(ts: Seq<Token>) -> int
    decreases ts.len(),
{
    if ts.len() == 0 {
        0
    } else {
        match ts[0] {
            Token::Word(_) => 1,
            Token::Space => 1 + leading_run(ts.drop_first()),
            _ => 0,
        }
    }
}

/// The number of tokens that move when the last word of a line is taken:
/// the spaces at the end of the line and the word before them. Where
/// something else stands before the spaces, only the spaces move.
pub open spec fn trailing_run(ts: Seq<Token>) -> int
    decreases ts.len(),
{
    if ts.len() == 0 {
        0
    } else {
        match ts.last() {
            Token::Word(_) => 1,
            Token::Space => 1 + trailing_run(ts.drop_last()),
            _ => 0,
        }
    }
}

/// A run is no longer than its line.
pub proof fn lemma_run_bounds(ts: Seq<Token>)
    ensures
        0 <= leading_run(ts) <= ts.len(),
        0 <= trailing_run(ts) <= ts.len(),
    decreases ts.len(),
{
    if ts.len() > 0 {
        lemma_run_bounds(ts.drop_first());
        lemma_run_bounds(ts.drop_last());
    }
}

/// The line `l` holding the tokens `ts` instead of its own: its text is
/// that of the tokens.
pub open spec fn retokened(l: LineView, ts: Seq<Token>, width: int) -> LineView {
    LineView { text: tokens_text(ts), width, tokens: ts, ..l }
}

/// Moves the first word of line `index + 1` to the end of line `index`,
/// where the longer line fits `max_width`; otherwise nothing changes.
pub open spec fn pull_from_next(
    ctx: FontContext,
    lines: Seq<LineView>,
    index: int,
    max_width: int,
    is_chinese: bool,
) -> Seq<LineView> {
    if index < 0 || index + 1 >= lines.len() {
        lines
    } else {
        let taker = lines[index];
        let donor = lines[index + 1];
        let n = leading_run(donor.tokens);
        let moved = donor.tokens.take(n);
        let rest = donor.tokens.skip(n);
        let added = tokens_width(ctx, moved, is_chinese);
        if n == 0 || taker.width + added > max_width {
            lines
        } else {
            lines.update(index, retokened(taker, taker.tokens + moved, taker.width + added)).update(
                index + 1,
                retokened(donor, rest, tokens_width(ctx, rest, is_chinese)),
            )
        }
    }
}

/// Moves the last word of line `index` to the start of line `index + 1`,
/// where the longer line fits `max_width`; otherwise nothing changes.
pub open spec fn push_to_next(
    ctx: FontContext,
    lines: Seq<LineView>,
    index: int,
    max_width: int,
    is_chinese: bool,
) -> Seq<LineView> {
    if index < 0 || index + 1 >= lines.len() {
        lines
    } else {
        let donor = lines[index];
        let taker = lines[index + 1];
        let n = trailing_run(donor.tokens);
        let keep = donor.tokens.len() - n;
        let moved = donor.tokens.skip(keep);
        let rest = donor.tokens.take(keep);
        let added = tokens_width(ctx, moved, is_chinese);
        if n == 0 || taker.width + added > max_width {
            lines
        } else {
            lines.update(
                index + 1,
                retokened(taker, moved + taker.tokens, taker.width + added),
            ).update(index, retokened(donor, rest, tokens_width(ctx, rest, is_chinese)))
        }
    }
}

/// A line cut in two shows the characters and has the width of its parts.
pub proof fn lemma_cut(ctx: FontContext, ts: Seq<Token>, n: int, is_chinese: bool)
    requires
        0 <= n <= ts.len(),
    ensures
        tokens_chars(ts) == tokens_chars(ts.take(n)) + tokens_chars(ts.skip(n)),
        tokens_width(ctx, ts, is_chinese) == tokens_width(ctx, ts.take(n), is_chinese)
            + tokens_width(ctx, ts.skip(n), is_chinese),
        0 <= tokens_chars(ts.take(n)),
        0 <= tokens_chars(ts.skip(n)),
{
    assert(ts == ts.take(n) + ts.skip(n));
    lemma_tokens_concat(ts.take(n), ts.skip(n));
    lemma_width_concat(ctx, ts.take(n), ts.skip(n), is_chinese);
    lemma_counts_bounded(ts.take(n));
    lemma_counts_bounded(ts.skip(n));
}

/// Moving tokens from one line to its neighbour keeps the lines measured:
/// `a` and `b` are the two new lines, which together hold what the old two held.
pub proof fn lemma_exchange_measured(
    ctx: FontContext,
    lines: Seq<LineView>,
    i: int,
    j: int,
    a: LineView,
    b: LineView,
    is_chinese: bool,
)
    requires
        measured(ctx, lines, is_chinese),
        0 <= i < lines.len(),
        0 <= j < lines.len(),
        i != j,
        a.width == tokens_width(ctx, a.tokens, is_chinese),
        b.width == tokens_width(ctx, b.tokens, is_chinese),
        tokens_chars(a.tokens) + tokens_chars(b.tokens) == tokens_chars(lines[i].tokens)
            + tokens_chars(lines[j].tokens),
        a.tokens.len() + b.tokens.len() == lines[i].tokens.len() + lines[j].tokens.len(),
    ensures
        measured(ctx, lines.update(i, a).update(j, b), is_chinese),
{
    lemma_totals_update(lines, i, a);
    lemma_totals_update(lines.update(i, a), j, b);
}

/// Both transfers keep the lines measured.
pub proof fn lemma_transfer_measured(
    ctx: FontContext,
    lines: Seq<LineView>,
    index: int,
    max_width: int,
    is_chinese: bool,
)
    requires
        measured(ctx, lines, is_chinese),
    ensures
        measured(ctx, pull_from_next(ctx, lines, index, max_width, is_chinese), is_chinese),
        measured(ctx, push_to_next(ctx, lines, index, max_width, is_chinese), is_chinese),
        pull_from_next(ctx, lines, index, max_width, is_chinese).len() == lines.len(),
        push_to_next(ctx, lines, index, max_width, is_chinese).len() == lines.len(),
{
    if 0 <= index && index + 1 < lines.len() {
        {
            let taker = lines[index];
            let donor = lines[index + 1];
            lemma_run_bounds(donor.tokens);
            let n = leading_run(donor.tokens);
            let moved = donor.tokens.take(n);
            let rest = donor.tokens.skip(n);
            lemma_cut(ctx, donor.tokens, n, is_chinese);
            lemma_tokens_concat(taker.tokens, moved);
            lemma_width_concat(ctx, taker.tokens, moved, is_chinese);
            let a = retokened(
                taker,
                taker.tokens + moved,
                taker.width + tokens_width(ctx, moved, is_chinese),
            );
            let b = retokened(donor, rest, tokens_width(ctx, rest, is_chinese));
            lemma_exchange_measured(ctx, lines, index, index + 1, a, b, is_chinese);
        }
        {
            let donor = lines[index];
            let taker = lines[index + 1];
            lemma_run_bounds(donor.tokens);
            let keep = donor.tokens.len() - trailing_run(donor.tokens);
            let moved = donor.tokens.skip(keep);
            let rest = donor.tokens.take(keep);
            lemma_cut(ctx, donor.tokens, keep, is_chinese);
            lemma_tokens_concat(moved, taker.tokens);
            lemma_width_concat(ctx, moved, taker.tokens, is_chinese);
            let a = retokened(
                taker,
                moved + taker.tokens,
                taker.width + tokens_width(ctx, moved, is_chinese),
            );
            let b = retokened(donor, rest, tokens_width(ctx, rest, is_chinese));
            lemma_exchange_measured(ctx, lines, index + 1, index, a, b, is_chinese);
        }
    }
}

/// Both transfers keep every line's text the text of its tokens.
pub proof fn lemma_transfer_texts(
    ctx: FontContext,
    lines: Seq<LineView>,
    index: int,
    max_width: int,
    is_chinese: bool,
)
    requires
        texts_agree(lines),
    ensures
        texts_agree(pull_from_next(ctx, lines, index, max_width, is_chinese)),
        texts_agree(push_to_next(ctx, lines, index, max_width, is_chinese)),
{
}

/// The number of tokens at the start of `tokens` that a pull moves.
pub fn leading_run_len(tokens: &Vec<TextToken>) -> (n: usize)
    ensures
        n == leading_run(token_views(tokens@)),
        n <= tokens.len(),
{
    let ghost ts = token_views(tokens@);
    let mut i: usize = 0;
    assert(ts.skip(0) == ts);
    while i < tokens.len()
        invariant
            i <= tokens.len(),
            ts == token_views(tokens@),
            leading_run(ts) == i + leading_run(ts.skip(i as int)),
        decreases tokens.len() - i,
    {
        proof {
            assert(ts.skip(i as int)[0] == tokens@[i as int]@);
            assert(ts.skip(i as int).drop_first() == ts.skip(i + 1));
        }
        match &tokens[i] {
            TextToken::Word(_) => {
                return i + 1;
            },
            TextToken::Space => {},
            _ => {
                return i;
            },
        }
        i += 1;
    }
    assert(ts.skip(tokens.len() as int).len() == 0);
    i
}

/// The number of tokens at the end of `tokens` that a push moves.
pub fn trailing_run_len(tokens: &Vec<TextToken>) -> (n: usize)
    ensures
        n == trailing_run(token_views(tokens@)),
        n <= tokens.len(),
{
    let ghost ts = token_views(tokens@);
    let len = tokens.len();
    let mut i: usize = len;
    assert(ts.take(len as int) == ts);
    while i > 0
        invariant
            i <= len,
            len == tokens.len(),
            ts == token_views(tokens@),
            trailing_run(ts) == (len - i) + trailing_run(ts.take(i as int)),
        decreases i,
    {
        proof {
            assert(ts.take(i as int).last() == tokens@[i - 1]@);
            assert(ts.take(i as int).drop_last() == ts.take(i - 1));
        }
        match &tokens[i - 1] {
            TextToken::Word(_) => {
                return len - i + 1;
            },
            TextToken::Space => {},
            _ => {
                return len - i;
            },
        }
        i -= 1;
    }
    assert(ts.take(0).len() == 0);
    len
}

/// Widow control: where the last line has exactly one word, that word is
/// moved up to the line before it, if it fits there.
pub open spec fn widow_pass(
    ctx: FontContext,
    lines: Seq<LineView>,
    max_width: int,
    is_chinese: bool,
) -> Seq<LineView> {
    if lines.len() >= 2 && count_words(lines.last().tokens) == 1 {
        pull_from_next(ctx, lines, lines.len() - 2, max_width, is_chinese)
    } else {
        lines
    }
}

/// Orphan control: where the first line has exactly one word, that word is
/// moved down to the second line, if it fits there.
pub open spec fn orphan_pass(
    ctx: FontContext,
    lines: Seq<LineView>,
    max_width: int,
    is_chinese: bool,
) -> Seq<LineView> {
    if lines.len() >= 2 && count_words(lines[0].tokens) == 1 {
        push_to_next(ctx, lines, 0, max_width, is_chinese)
    } else {
        lines
    }
}

/// What the line-density rule does to line `i`: a line of one to four words
/// gives its last word to the next line, a line of more than fifteen words
/// takes the first word of the next line, each only if the word fits.
pub open spec fn density_step(
    ctx: FontContext,
    lines: Seq<LineView>,
    i: int,
    max_width: int,
    is_chinese: bool,
) -> Seq<LineView> {
    if 0 <= i && i + 1 < lines.len() {
        let wc = count_words(lines[i].tokens);
        if 0 < wc < 5 {
            push_to_next(ctx, lines, i, max_width, is_chinese)
        } else if wc > 15 {
            pull_from_next(ctx, lines, i, max_width, is_chinese)
        } else {
            lines
        }
    } else {
        lines
    }
}

/// The line-density rule applied to the first `upto` lines, one after the
/// other.
pub open spec fn density_pass(
    ctx: FontContext,
    lines: Seq<LineView>,
    max_width: int,
    is_chinese: bool,
    upto: int,
) -> Seq<LineView>
    decreases upto,
{
    if upto <= 0 {
        lines
    } else {
        density_step(
            ctx,
            density_pass(ctx, lines, max_width, is_chinese, upto - 1),
            upto - 1,
            max_width,
            is_chinese,
        )
    }
}

/// What the stacked-hyphen rule does at line `i`: where this line and the
/// one before it both end in a hyphen, the line before takes this line's
/// first word, if it fits.
pub open spec fn hyphen_step(
    ctx: FontContext,
    lines: Seq<LineView>,
    i: int,
    max_width: int,
    is_chinese: bool,
) -> Seq<LineView> {
    if 1 <= i < lines.len() && hyphen_at_end(lines[i - 1].tokens) && hyphen_at_end(
        lines[i].tokens,
    ) {
        pull_from_next(ctx, lines, i - 1, max_width, is_chinese)
    } else {
        lines
    }
}

/// The stacked-hyphen rule applied to the lines before `upto`, one after
/// the other.
pub open spec fn hyphen_pass(
    ctx: FontContext,
    lines: Seq<LineView>,
    max_width: int,
    is_chinese: bool,
    upto: int,
) -> Seq<LineView>
    decreases upto,
{
    if upto <= 1 {
        lines
    } else {
        hyphen_step(
            ctx,
            hyphen_pass(ctx, lines, max_width, is_chinese, upto - 1),
            upto - 1,
            max_width,
            is_chinese,
        )
    }
}

/// The width that rag smoothing records for a line between two neighbours.
///
/// Where the three widths rise or fall strictly, the middle one moves
/// toward the mean of its neighbours, by no more than a twentieth of its
/// own magnitude.
pub open spec fn smoothed_width(prev: int, curr: int, next: int) -> int {
    if (curr > prev && next > curr) || (curr < prev && next < curr) {
        let limit = trunc_div(abs(curr), 20);
        curr + clamp(trunc_div(prev + next, 2) - curr, -limit, limit)
    } else {
        curr
    }
}

/// Rag smoothing of the lines 1 to `done`, in order, each seeing the widths
/// that the lines before it were left with.
pub open spec fn rag_pass(lines: Seq<LineView>, done: int) -> Seq<LineView>
    decreases done,
{
    if done <= 0 {
        lines
    } else {
        let cur = rag_pass(lines, done - 1);
        if done + 1 < cur.len() {
            cur.update(
                done,
                LineView {
                    width: smoothed_width(
                        cur[done - 1].width,
                        cur[done].width,
                        cur[done + 1].width,
                    ),
                    ..cur[done]
                },
            )
        } else {
            cur
        }
    }
}

/// Rag smoothing of a paragraph: of every line that has a neighbour on both
/// sides. The tokens stay where they are.
pub open spec fn rag_smoothed(lines: Seq<LineView>) -> Seq<LineView> {
    if lines.len() < 3 {
        lines
    } else {
        rag_pass(lines, lines.len() - 2)
    }
}

/// The lines of a paragraph after the tidying passes.
///
/// Only Latin paragraphs of two lines or more are tidied: they get widow
/// control, orphan control, the line-density rule and the stacked-hyphen
/// rule, and rag smoothing where they are not justified. The lines of any
/// other paragraph stay as they are.
pub open spec fn post_processed(
    ctx: FontContext,
    lines: Seq<LineView>,
    max_width: int,
    is_chinese: bool,
) -> Seq<LineView> {
    if is_chinese || lines.len() < 2 {
        lines
    } else {
        let w = widow_pass(ctx, lines, max_width, is_chinese);
        let o = orphan_pass(ctx, w, max_width, is_chinese);
        let d = density_pass(ctx, o, max_width, is_chinese, o.len() as int);
        let h = hyphen_pass(ctx, d, max_width, is_chinese, d.len() as int);
        if ctx.justification != Justification::Justify {
            rag_smoothed(h)
        } else {
            h
        }
    }
}

/// Rag smoothing keeps the number of lines, their tokens and their texts.
pub proof fn lemma_rag_keeps_tokens(lines: Seq<LineView>, done: int)
    ensures
        rag_pass(lines, done).len() == lines.len(),
        forall|i: int|
            0 <= i < lines.len() ==> (#[trigger] rag_pass(lines, done)[i]).tokens
                == lines[i].tokens && rag_pass(lines, done)[i].text == lines[i].text,
        forall|i: int|
            done < i < lines.len() ==> (#[trigger] rag_pass(lines, done)[i]) == lines[i],
    decreases done,
{
    if done > 0 {
        lemma_rag_keeps_tokens(lines, done - 1);
    }
}

/// The tidying passes keep the number of lines, and the text of every line
/// stays the text that its tokens show.
pub proof fn lemma_post_processed_texts(
    ctx: FontContext,
    lines: Seq<LineView>,
    max_width: int,
    is_chinese: bool,
)
    requires
        texts_agree(lines),
    ensures
        texts_agree(post_processed(ctx, lines, max_width, is_chinese)),
        post_processed(ctx, lines, max_width, is_chinese).len() == lines.len(),
{
    let w = widow_pass(ctx, lines, max_width, is_chinese);
    lemma_transfer_texts(ctx, lines, lines.len() - 2, max_width, is_chinese);
    lemma_transfer_len(ctx, lines, lines.len() - 2, max_width, is_chinese);
    let o = orphan_pass(ctx, w, max_width, is_chinese);
    lemma_transfer_texts(ctx, w, 0, max_width, is_chinese);
    lemma_transfer_len(ctx, w, 0, max_width, is_chinese);
    let d = density_pass(ctx, o, max_width, is_chinese, o.len() as int);
    lemma_density_texts(ctx, o, max_width, is_chinese, o.len() as int);
    let h = hyphen_pass(ctx, d, max_width, is_chinese, d.len() as int);
    lemma_hyphen_texts(ctx, d, max_width, is_chinese, d.len() as int);
    if h.len() >= 3 {
        lemma_rag_keeps_tokens(h, h.len() - 2);
    }
}

/// A transfer keeps the number of lines.
pub proof fn lemma_transfer_len(
    ctx: FontContext,
    lines: Seq<LineView>,
    index: int,
    max_width: int,
    is_chinese: bool,
)
    ensures
        pull_from_next(ctx, lines, index, max_width, is_chinese).len() == lines.len(),
        push_to_next(ctx, lines, index, max_width, is_chinese).len() == lines.len(),
{
}

/// The line-density rule keeps the number of lines and the agreement of
/// texts and tokens.
pub proof fn lemma_density_texts(
    ctx: FontContext,
    lines: Seq<LineView>,
    max_width: int,
    is_chinese: bool,
    upto: int,
)
    requires
        texts_agree(lines),
    ensures
        texts_agree(density_pass(ctx, lines, max_width, is_chinese, upto)),
        density_pass(ctx, lines, max_width, is_chinese, upto).len() == lines.len(),
    decreases upto,
{
    if upto > 0 {
        lemma_density_texts(ctx, lines, max_width, is_chinese, upto - 1);
        let cur = density_pass(ctx, lines, max_width, is_chinese, upto - 1);
        lemma_transfer_texts(ctx, cur, upto - 1, max_width, is_chinese);
        lemma_transfer_len(ctx, cur, upto - 1, max_width, is_chinese);
    }
}

/// The stacked-hyphen rule keeps the number of lines and the agreement of
/// texts and tokens.
pub proof fn lemma_hyphen_texts(
    ctx: FontContext,
    lines: Seq<LineView>,
    max_width: int,
    is_chinese: bool,
    upto: int,
)
    requires
        texts_agree(lines),
    ensures
        texts_agree(hyphen_pass(ctx, lines, max_width, is_chinese, upto)),
        hyphen_pass(ctx, lines, max_width, is_chinese, upto).len() == lines.len(),
    decreases upto,
{
    if upto > 1 {
        lemma_hyphen_texts(ctx, lines, max_width, is_chinese, upto - 1);
        let cur = hyphen_pass(ctx, lines, max_width, is_chinese, upto - 1);
        lemma_transfer_texts(ctx, cur, upto - 2, max_width, is_chinese);
        lemma_transfer_len(ctx, cur, upto - 2, max_width, is_chinese);
    }
}

/// Largest magnitude of a line width that rag smoothing accepts.
pub const WIDTH_LIMIT: i64 = 2_000_000_000_000_000_000;

/// The width that rag smoothing records for a line between two neighbours.
pub fn smooth_width(prev: i64, curr: i64, next: i64) -> (width: i64)
    requires
        -2_100_000_000_000_000_000 <= prev <= 2_100_000_000_000_000_000,
        -WIDTH_LIMIT <= curr <= WIDTH_LIMIT,
        -WIDTH_LIMIT <= next <= WIDTH_LIMIT,
    ensures
        width == smoothed_width(prev as int, curr as int, next as int),
        -2_100_000_000_000_000_000 <= width <= 2_100_000_000_000_000_000,
{
    if (curr > prev && next > curr) || (curr < prev && next < curr) {
        let magnitude: i64 = if curr < 0 {
            -curr
        } else {
            curr
        };
        let limit: i64 = div_trunc(magnitude, 20);
        let target: i64 = div_trunc(prev + next, 2);
        proof {
            lemma_trunc_div_bounds(magnitude as int, 20);
            lemma_trunc_div_bounds(prev + next, 2);
            assert(magnitude / 20 <= 100_000_000_000_000_000) by (nonlinear_arith)
                requires
                    0 <= magnitude <= 2_000_000_000_000_000_000,
            ;
        }
        let nudge: i64 = clamp_i64(target - curr, -limit, limit);
        curr + nudge
    } else {
        curr
    }
}

/// Whether line `a` differs from line `b` at most in its tokens, its text
/// and its width.
pub open spec fn same_frame(a: LineView, b: LineView) -> bool {
    a == (LineView { text: a.text, width: a.width, tokens: a.tokens, ..b })
}

/// Whether the lines of `a` are those of `b` but for tokens, texts and widths.
pub open spec fn same_frames(a: Seq<LineView>, b: Seq<LineView>) -> bool {
    a.len() == b.len() && forall|i: int| 0 <= i < a.len() ==> same_frame(#[trigger] a[i], b[i])
}

/// A transfer changes nothing of a line but its tokens, text and width.
pub proof fn lemma_transfer_frames(
    ctx: FontContext,
    lines: Seq<LineView>,
    index: int,
    max_width: int,
    is_chinese: bool,
)
    ensures
        same_frames(pull_from_next(ctx, lines, index, max_width, is_chinese), lines),
        same_frames(push_to_next(ctx, lines, index, max_width, is_chinese), lines),
{
}

/// The line-density rule changes nothing of a line but its tokens, text and
/// width.
pub proof fn lemma_density_frames(
    ctx: FontContext,
    lines: Seq<LineView>,
    max_width: int,
    is_chinese: bool,
    upto: int,
)
    ensures
        same_frames(density_pass(ctx, lines, max_width, is_chinese, upto), lines),
    decreases upto,
{
    if upto > 0 {
        lemma_density_frames(ctx, lines, max_width, is_chinese, upto - 1);
        let cur = density_pass(ctx, lines, max_width, is_chinese, upto - 1);
        lemma_transfer_frames(ctx, cur, upto - 1, max_width, is_chinese);
    }
}

/// The stacked-hyphen rule changes nothing of a line but its tokens, text
/// and width.
pub proof fn lemma_hyphen_frames(
    ctx: FontContext,
    lines: Seq<LineView>,
    max_width: int,
    is_chinese: bool,
    upto: int,
)
    ensures
        same_frames(hyphen_pass(ctx, lines, max_width, is_chinese, upto), lines),
    decreases upto,
{
    if upto > 1 {
        lemma_hyphen_frames(ctx, lines, max_width, is_chinese, upto - 1);
        let cur = hyphen_pass(ctx, lines, max_width, is_chinese, upto - 1);
        lemma_transfer_frames(ctx, cur, upto - 2, max_width, is_chinese);
    }
}

/// Rag smoothing changes nothing of a line but its width.
pub proof fn lemma_rag_frames(lines: Seq<LineView>, done: int)
    ensures
        same_frames(rag_pass(lines, done), lines),
    decreases done,
{
    if done > 0 {
        lemma_rag_frames(lines, done - 1);
    }
}

/// The tidying passes change nothing of a line but its tokens, text and
/// width: origins, baselines, sizes and recorded adjustments stay.
pub proof fn lemma_post_processed_frames(
    ctx: FontContext,
    lines: Seq<LineView>,
    max_width: int,
    is_chinese: bool,
)
    ensures
        same_frames(post_processed(ctx, lines, max_width, is_chinese), lines),
{
    let w = widow_pass(ctx, lines, max_width, is_chinese);
    lemma_transfer_frames(ctx, lines, lines.len() - 2, max_width, is_chinese);
    let o = orphan_pass(ctx, w, max_width, is_chinese);
    lemma_transfer_frames(ctx, w, 0, max_width, is_chinese);
    let d = density_pass(ctx, o, max_width, is_chinese, o.len() as int);
    lemma_density_frames(ctx, o, max_width, is_chinese, o.len() as int);
    let h = hyphen_pass(ctx, d, max_width, is_chinese, d.len() as int);
    lemma_hyphen_frames(ctx, d, max_width, is_chinese, d.len() as int);
    if h.len() >= 3 {
        lemma_rag_frames(h, h.len() - 2);
    }
}

impl TextLayoutEngine {
    /// Tries to move the first word of line `index + 1` to the end of line
    /// `index`.
    pub fn try_pull_word_from_next_line(
        &self,
        lines: &mut Vec<FormattedLine>,
        index: usize,
        max_width: i64,
        is_chinese: bool,
    )
        requires
            self.font_context.valid(),
            measured(self.font_context, line_views(old(lines)@), is_chinese),
            -MAX_LENGTH <= max_width <= MAX_LENGTH,
        ensures
            line_views(final(lines)@) == pull_from_next(
                self.font_context,
                line_views(old(lines)@),
                index as int,
                max_width as int,
                is_chinese,
            ),
            measured(self.font_context, line_views(final(lines)@), is_chinese),
            final(lines)@.len() == old(lines)@.len(),
    {
        let ghost ctx = self.font_context;
        let ghost before = line_views(lines@);
        proof {
            lemma_transfer_measured(ctx, before, index as int, max_width as int, is_chinese);
        }
        if lines.len() < 2 || index > lines.len() - 2 {
            return;
        }
        proof {
            lemma_measured_width(ctx, before, index as int, is_chinese);
            lemma_measured_width(ctx, before, index + 1, is_chinese);
            assert(before[index as int] == lines@[index as int]@);
            assert(before[index + 1] == lines@[index + 1]@);
        }
        let n = leading_run_len(&lines[index + 1].tokens);
        if n == 0 {
            return;
        }
        let donor_len = lines[index + 1].tokens.len();
        let taker_len = lines[index].tokens.len();
        let mut moved = clone_tokens(&lines[index + 1].tokens, 0, n);
        let rest = clone_tokens(&lines[index + 1].tokens, n, donor_len);
        let ghost donor_tokens = before[index + 1].tokens;
        let ghost taker_tokens = before[index as int].tokens;
        proof {
            assert(token_views(moved@) == donor_tokens.take(n as int));
            assert(token_views(rest@) == donor_tokens.skip(n as int));
            lemma_cut(ctx, donor_tokens, n as int, is_chinese);
        }
        let added: i64 = self.calculate_line_width(&moved, is_chinese);
        if lines[index].width + added > max_width {
            return;
        }
        let rest_width: i64 = self.calculate_line_width(&rest, is_chinese);
        let rest_text = tokens_to_text(&rest);
        let mut joined = clone_tokens(&lines[index].tokens, 0, taker_len);
        assert(lines@[index as int].tokens@.subrange(0, taker_len as int)
            == lines@[index as int].tokens@);
        joined.append(&mut moved);
        assert(token_views(joined@) == taker_tokens + donor_tokens.take(n as int));
        let joined_text = tokens_to_text(&joined);
        let joined_width: i64 = lines[index].width + added;
        lines[index].tokens = joined;
        lines[index].width = joined_width;
        lines[index].text = joined_text;
        lines[index + 1].tokens = rest;
        lines[index + 1].width = rest_width;
        lines[index + 1].text = rest_text;
        assert(line_views(lines@) =~= pull_from_next(
            ctx,
            before,
            index as int,
            max_width as int,
            is_chinese,
        ));
    }

    /// Tries to move the first word of line `last_index` to the end of the
    /// line before it.
    pub fn try_pull_word_from_previous_line(
        &self,
        lines: &mut Vec<FormattedLine>,
        last_index: usize,
        max_width: i64,
        is_chinese: bool,
    )
        requires
            self.font_context.valid(),
            measured(self.font_context, line_views(old(lines)@), is_chinese),
            -MAX_LENGTH <= max_width <= MAX_LENGTH,
        ensures
            line_views(final(lines)@) == pull_from_next(
                self.font_context,
                line_views(old(lines)@),
                last_index - 1,
                max_width as int,
                is_chinese,
            ),
            measured(self.font_context, line_views(final(lines)@), is_chinese),
            final(lines)@.len() == old(lines)@.len(),
    {
        if last_index == 0 {
            return;
        }
        self.try_pull_word_from_next_line(lines, last_index - 1, max_width, is_chinese);
    }

    /// Tries to move the last word of line `index` to the start of line
    /// `index + 1`.
    pub fn try_push_word_to_next_line(
        &self,
        lines: &mut Vec<FormattedLine>,
        index: usize,
        max_width: i64,
        is_chinese: bool,
    )
        requires
            self.font_context.valid(),
            measured(self.font_context, line_views(old(lines)@), is_chinese),
            -MAX_LENGTH <= max_width <= MAX_LENGTH,
        ensures
            line_views(final(lines)@) == push_to_next(
                self.font_context,
                line_views(old(lines)@),
                index as int,
                max_width as int,
                is_chinese,
            ),
            measured(self.font_context, line_views(final(lines)@), is_chinese),
            final(lines)@.len() == old(lines)@.len(),
    {
        let ghost ctx = self.font_context;
        let ghost before = line_views(lines@);
        proof {
            lemma_transfer_measured(ctx, before, index as int, max_width as int, is_chinese);
        }
        if lines.len() < 2 || index > lines.len() - 2 {
            return;
        }
        proof {
            lemma_measured_width(ctx, before, index as int, is_chinese);
            lemma_measured_width(ctx, before, index + 1, is_chinese);
            assert(before[index as int] == lines@[index as int]@);
            assert(before[index + 1] == lines@[index + 1]@);
        }
        let n = trailing_run_len(&lines[index].tokens);
        if n == 0 {
            return;
        }
        let donor_len = lines[index].tokens.len();
        let taker_len = lines[index + 1].tokens.len();
        let keep: usize = donor_len - n;
        let mut moved = clone_tokens(&lines[index].tokens, keep, donor_len);
        let rest = clone_tokens(&lines[index].tokens, 0, keep);
        let ghost donor_tokens = before[index as int].tokens;
        let ghost taker_tokens = before[index + 1].tokens;
        proof {
            assert(token_views(moved@) == donor_tokens.skip(keep as int));
            assert(token_views(rest@) == donor_tokens.take(keep as int));
            lemma_cut(ctx, donor_tokens, keep as int, is_chinese);
        }
        let added: i64 = self.calculate_line_width(&moved, is_chinese);
        if lines[index + 1].width + added > max_width {
            return;
        }
        let rest_width: i64 = self.calculate_line_width(&rest, is_chinese);
        let rest_text = tokens_to_text(&rest);
        let mut tail = clone_tokens(&lines[index + 1].tokens, 0, taker_len);
        assert(lines@[index + 1].tokens@.subrange(0, taker_len as int) == lines@[index
            + 1].tokens@);
        moved.append(&mut tail);
        assert(token_views(moved@) == donor_tokens.skip(keep as int) + taker_tokens);
        let joined_text = tokens_to_text(&moved);
        let joined_width: i64 = lines[index + 1].width + added;
        lines[index + 1].tokens = moved;
        lines[index + 1].width = joined_width;
        lines[index + 1].text = joined_text;
        lines[index].tokens = rest;
        lines[index].width = rest_width;
        lines[index].text = rest_text;
        assert(line_views(lines@) =~= push_to_next(
            ctx,
            before,
            index as int,
            max_width as int,
            is_chinese,
        ));
    }

    /// Smooths the rag: nudges the recorded width of every line that lies on
    /// a strict rise or fall between its neighbours.
    pub fn adjust_rag(&self, lines: &mut Vec<FormattedLine>)
        requires
            forall|i: int|
                0 <= i < old(lines)@.len() ==> -WIDTH_LIMIT <= (#[trigger] old(lines)@[i]).width
                    <= WIDTH_LIMIT,
        ensures
            line_views(final(lines)@) == rag_smoothed(line_views(old(lines)@)),
            final(lines)@.len() == old(lines)@.len(),
    {
        let ghost before = line_views(lines@);
        let n = lines.len();
        if n < 3 {
            return;
        }
        let mut i: usize = 1;
        while i < n - 1
            invariant
                n == lines.len(),
                n >= 3,
                before.len() == n,
                1 <= i <= n - 1,
                line_views(lines@) == rag_pass(before, i - 1),
                forall|j: int|
                    0 <= j < n ==> -2_100_000_000_000_000_000 <= (#[trigger] lines@[j]).width
                        <= 2_100_000_000_000_000_000,
                forall|j: int|
                    i <= j < n ==> -WIDTH_LIMIT <= (#[trigger] lines@[j]).width <= WIDTH_LIMIT,
            decreases n - i,
        {
            let ghost cur = line_views(lines@);
            let ghost prior = lines@;
            proof {
                lemma_rag_keeps_tokens(before, i - 1);
                assert(cur[i - 1] == lines@[i - 1]@);
                assert(cur[i as int] == lines@[i as int]@);
                assert(cur[i + 1] == lines@[i + 1]@);
            }
            let width: i64 = smooth_width(lines[i - 1].width, lines[i].width, lines[i + 1].width);
            lines[i].width = width;
            proof {
                let next = rag_pass(before, i as int);
                assert(next == cur.update(
                    i as int,
                    LineView { width: width as int, ..cur[i as int] },
                ));
                assert(lines@.len() == prior.len());
                assert forall|j: int| 0 <= j < n implies line_views(lines@)[j] == next[j] by {
                    if j != i {
                        assert(lines@[j] == prior[j]);
                        assert(cur[j] == prior[j]@);
                    }
                }
                assert(line_views(lines@) =~= next);
            }
            i += 1;
        }
    }

    /// Tidies the lines of a Latin paragraph of two lines or more: widow and
    /// orphan control, the line-density rule, stacked hyphens and the rag.
    /// The lines of any other paragraph stay as they are.
    pub fn post_process_lines(
        &self,
        lines: &mut Vec<FormattedLine>,
        max_width: i64,
        is_chinese: bool,
    )
        requires
            self.font_context.valid(),
            measured(self.font_context, line_views(old(lines)@), is_chinese),
            -MAX_LENGTH <= max_width <= MAX_LENGTH,
        ensures
            line_views(final(lines)@) == post_processed(
                self.font_context,
                line_views(old(lines)@),
                max_width as int,
                is_chinese,
            ),
            final(lines)@.len() == old(lines)@.len(),
            lines_chars(line_views(final(lines)@)) <= MAX_TEXT_CHARS,
            is_chinese || old(lines)@.len() < 2 ==> final(lines)@ == old(lines)@,
    {
        let ghost ctx = self.font_context;
        let ghost before = line_views(lines@);
        let n = lines.len();
        if is_chinese || n < 2 {
            return;
        }
        {
            let last = n - 1;
            assert(before.last() == lines@[last as int]@);
            if lines[last].word_count() == 1 {
                self.try_pull_word_from_previous_line(lines, last, max_width, is_chinese);
            }
            let ghost w = line_views(lines@);
            assert(w == widow_pass(ctx, before, max_width as int, is_chinese));
            assert(w[0] == lines@[0]@);
            if lines[0].word_count() == 1 {
                self.try_push_word_to_next_line(lines, 0, max_width, is_chinese);
            }
            let ghost o = line_views(lines@);
            assert(o == orphan_pass(ctx, w, max_width as int, is_chinese));
            let mut i: usize = 0;
            while i < n
                invariant
                    ctx == self.font_context,
                    ctx.valid(),
                    -MAX_LENGTH <= max_width <= MAX_LENGTH,
                    n == lines.len(),
                    o.len() == n,
                    i <= n,
                    measured(ctx, line_views(lines@), is_chinese),
                    line_views(lines@) == density_pass(
                        ctx,
                        o,
                        max_width as int,
                        is_chinese,
                        i as int,
                    ),
                decreases n - i,
            {
                let ghost cur = line_views(lines@);
                assert(cur[i as int] == lines@[i as int]@);
                let wc = lines[i].word_count();
                if wc > 0 && (wc < 5 || wc > 15) {
                    if wc < 5 && i + 1 < n {
                        self.try_push_word_to_next_line(lines, i, max_width, is_chinese);
                    } else if wc > 15 && i + 1 < n {
                        self.try_pull_word_from_next_line(lines, i, max_width, is_chinese);
                    }
                }
                assert(line_views(lines@) == density_step(
                    ctx,
                    cur,
                    i as int,
                    max_width as int,
                    is_chinese,
                ));
                i += 1;
            }
        }
        let ghost tidy = line_views(lines@);
        let mut i: usize = 1;
        while i < n
            invariant
                ctx == self.font_context,
                ctx.valid(),
                -MAX_LENGTH <= max_width <= MAX_LENGTH,
                n == lines.len(),
                tidy.len() == n,
                1 <= i <= n,
                measured(ctx, line_views(lines@), is_chinese),
                line_views(lines@) == hyphen_pass(ctx, tidy, max_width as int, is_chinese, i as int),
            decreases n - i,
        {
            let ghost cur = line_views(lines@);
            assert(cur[i - 1] == lines@[i - 1]@);
            assert(cur[i as int] == lines@[i as int]@);
            if lines[i - 1].ends_with_hyphen() && lines[i].ends_with_hyphen() {
                self.try_pull_word_from_next_line(lines, i - 1, max_width, is_chinese);
            }
            assert(line_views(lines@) == hyphen_step(
                ctx,
                cur,
                i as int,
                max_width as int,
                is_chinese,
            ));
            i += 1;
        }
        if self.font_context.justification != Justification::Justify {
            proof {
                let h = line_views(lines@);
                assert forall|j: int| 0 <= j < lines@.len() implies -WIDTH_LIMIT <= (
                #[trigger] lines@[j]).width <= WIDTH_LIMIT by {
                    lemma_measured_width(ctx, h, j, is_chinese);
                    assert(h[j] == lines@[j]@);
                }
                lemma_rag_keeps_tokens(h, h.len() - 2);
                lemma_same_tokens_totals(rag_smoothed(h), h);
            }
            self.adjust_rag(lines);
        }
    }
}

} // verus!
