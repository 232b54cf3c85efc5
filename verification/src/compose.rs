//! Building the lines of a paragraph from its tokens and its line ends.

use crate::breaking::{
    as_ints, filling, legal_break, legal_set, lemma_breaks_ascend, lemma_lines_fit_each,
    lemma_no_overflow,
};
use crate::fonts::{FontContext, Justification};
use crate::justify::{justified_adjustments, lemma_justification_clamp};
use crate::lines::{
    FormattedLine, line_views, lines_chars, lines_tokens, LineView, MAX_LEADING, measured,
    SpaceAdjustment, texts_agree,
};
use crate::tokens::{
    clone_tokens, hyphen_at_end, lemma_counts_bounded, lemma_subrange_chars, lemma_tokens_concat,
    supported, TextToken, Token, token_views, tokens_chars, tokens_end_with_hyphen, tokens_text,
    tokens_to_text, tokens_width,
};
use crate::typography::TextLayoutEngine;
use crate::units::{MAX_LENGTH, MAX_TEXT_CHARS};
use vstd::prelude::*;

verus! {

/// The line made of `line_tokens`, the line numbered `index` of its
/// paragraph, justified where `justify` says so.
pub open spec fn composed_line(
    ctx: FontContext,
    line_tokens: Seq<Token>,
    is_chinese: bool,
    max_width: int,
    leading: int,
    index: int,
    justify: bool,
) -> LineView {
    let adjustments = if justify {
        justified_adjustments(ctx, line_tokens, is_chinese, max_width)
    } else {
        Seq::empty()
    };
    LineView {
        text: tokens_text(line_tokens),
        x: 0,
        y: 0,
        width: tokens_width(ctx, line_tokens, is_chinese),
        height: leading,
        is_chinese,
        font_size: ctx.size(is_chinese),
        baseline: index * leading,
        tokens: line_tokens,
        space_adjustments: adjustments,
        is_justified: adjustments.len() > 0,
        hyphenated: hyphen_at_end(line_tokens),
    }
}

/// Where the line numbered `k` begins.
pub open spec fn line_start(breaks: Seq<int>, k: int) -> int {
    if k <= 0 {
        0
    } else {
        breaks[k - 1]
    }
}

/// The lines that end at `breaks`. Baselines are one leading apart, the
/// first at zero. Latin lines are justified where the context asks for it,
/// but never the first line of a paragraph.
pub open spec fn composed_lines(
    ctx: FontContext,
    ts: Seq<Token>,
    is_chinese: bool,
    max_width: int,
    leading: int,
    breaks: Seq<int>,
) -> Seq<LineView> {
    Seq::new(
        breaks.len(),
        |k: int|
            composed_line(
                ctx,
                ts.subrange(line_start(breaks, k), breaks[k]),
                is_chinese,
                max_width,
                leading,
                k,
                !is_chinese && ctx.justification == Justification::Justify && k != 0,
            ),
    )
}

/// The lines of a paragraph as the composer first breaks them: the lines of
/// the filled paragraph.
pub open spec fn composed(
    ctx: FontContext,
    ts: Seq<Token>,
    is_chinese: bool,
    max_width: int,
    leading: int,
) -> Seq<LineView> {
    composed_lines(
        ctx,
        filling(ctx, ts, is_chinese, legal_set(ts), max_width).tokens,
        is_chinese,
        max_width,
        leading,
        filling(ctx, ts, is_chinese, legal_set(ts), max_width).breaks,
    )
}

/// The lines that the composer first breaks lie within the limits.
pub proof fn lemma_composed_ready(
    ctx: FontContext,
    ts: Seq<Token>,
    is_chinese: bool,
    max_width: int,
    leading: int,
)
    requires
        ctx.valid(),
        supported(ts),
        0 <= leading <= MAX_LEADING,
    ensures
        forall|k: int|
            0 <= k < composed(ctx, ts, is_chinese, max_width, leading).len() ==> (
            #[trigger] composed(ctx, ts, is_chinese, max_width, leading)[k]).ready(),
{
    let legal = legal_set(ts);
    let breaks = filling(ctx, ts, is_chinese, legal, max_width).breaks;
    let filled = filling(ctx, ts, is_chinese, legal, max_width).tokens;
    let all = composed(ctx, ts, is_chinese, max_width, leading);
    lemma_no_overflow(ctx, ts, is_chinese, legal, max_width);
    lemma_breaks_ascend(ctx, filled, is_chinese, max_width, 0, breaks);
    assert forall|k: int| 0 <= k < all.len() implies (#[trigger] all[k]).ready() by {
        let s = line_start(breaks, k);
        let e = breaks[k];
        if k > 0 {
            assert(breaks[k - 1] < breaks[k]);
        }
        let lt = filled.subrange(s, e);
        lemma_subrange_chars(filled, s, e);
        lemma_counts_bounded(lt);
        lemma_justification_clamp(ctx, lt, is_chinese, max_width);
        assert(0 <= k * leading <= 1_000_000 * 20_000_000_000) by (nonlinear_arith)
            requires
                0 <= k <= 1_000_000,
                0 <= leading <= 20_000_000_000,
        ;
    }
}

/// The first `k` composed lines hold the tokens before the start of line `k`.
pub proof fn lemma_composed_totals(
    ctx: FontContext,
    ts: Seq<Token>,
    is_chinese: bool,
    max_width: int,
    leading: int,
    breaks: Seq<int>,
    k: int,
)
    requires
        0 <= k <= breaks.len(),
        forall|x: int| 0 <= x < breaks.len() ==> 0 < #[trigger] breaks[x] <= ts.len(),
        forall|x: int| 1 <= x < breaks.len() ==> breaks[x - 1] < #[trigger] breaks[x],
    ensures
        lines_chars(composed_lines(ctx, ts, is_chinese, max_width, leading, breaks).take(k))
            == tokens_chars(ts.subrange(0, line_start(breaks, k))),
        lines_tokens(composed_lines(ctx, ts, is_chinese, max_width, leading, breaks).take(k))
            == line_start(breaks, k),
    decreases k,
{
    let all = composed_lines(ctx, ts, is_chinese, max_width, leading, breaks);
    if k == 0 {
        assert(ts.subrange(0, 0).len() == 0);
    } else {
        lemma_composed_totals(ctx, ts, is_chinese, max_width, leading, breaks, k - 1);
        assert(all.take(k).drop_last() == all.take(k - 1));
        assert(all.take(k).last() == all[k - 1]);
        let s = line_start(breaks, k - 1);
        let e = breaks[k - 1];
        if k - 1 > 0 {
            assert(breaks[k - 2] < breaks[k - 1]);
        }
        assert(all[k - 1].tokens == ts.subrange(s, e));
        assert(ts.subrange(0, e) == ts.subrange(0, s) + ts.subrange(s, e));
        lemma_tokens_concat(ts.subrange(0, s), ts.subrange(s, e));
    }
}

/// The lines that the composer first breaks are measured.
pub proof fn lemma_composed_measured(
    ctx: FontContext,
    ts: Seq<Token>,
    is_chinese: bool,
    max_width: int,
    leading: int,
)
    requires
        supported(ts),
    ensures
        measured(ctx, composed(ctx, ts, is_chinese, max_width, leading), is_chinese),
        texts_agree(composed(ctx, ts, is_chinese, max_width, leading)),
        composed(ctx, ts, is_chinese, max_width, leading).len() <= MAX_TEXT_CHARS,
        forall|k: int|
            0 <= k < composed(ctx, ts, is_chinese, max_width, leading).len() ==> (
            #[trigger] composed(ctx, ts, is_chinese, max_width, leading)[k]).baseline == k
                * leading,
{
    let legal = legal_set(ts);
    let breaks = filling(ctx, ts, is_chinese, legal, max_width).breaks;
    let filled = filling(ctx, ts, is_chinese, legal, max_width).tokens;
    let all = composed_lines(ctx, filled, is_chinese, max_width, leading, breaks);
    lemma_no_overflow(ctx, ts, is_chinese, legal, max_width);
    lemma_breaks_ascend(ctx, filled, is_chinese, max_width, 0, breaks);
    lemma_composed_totals(ctx, filled, is_chinese, max_width, leading, breaks, breaks.len() as int);
    assert(all.take(breaks.len() as int) == all);
    lemma_subrange_chars(filled, 0, line_start(breaks, breaks.len() as int));
}

/// Every line that the composer first breaks either fits the width allowed
/// or holds a single token.
pub proof fn lemma_composed_no_overflow(
    ctx: FontContext,
    ts: Seq<Token>,
    is_chinese: bool,
    max_width: int,
    leading: int,
)
    ensures
        forall|k: int|
            0 <= k < composed(ctx, ts, is_chinese, max_width, leading).len() ==> (
            #[trigger] composed(ctx, ts, is_chinese, max_width, leading)[k]).width <= max_width
                || composed(ctx, ts, is_chinese, max_width, leading)[k].tokens.len() == 1,
{
    let legal = legal_set(ts);
    let breaks = filling(ctx, ts, is_chinese, legal, max_width).breaks;
    let filled = filling(ctx, ts, is_chinese, legal, max_width).tokens;
    lemma_no_overflow(ctx, ts, is_chinese, legal, max_width);
    lemma_breaks_ascend(ctx, filled, is_chinese, max_width, 0, breaks);
    lemma_lines_fit_each(ctx, filled, is_chinese, max_width, 0, breaks);
    let all = composed(ctx, ts, is_chinese, max_width, leading);
    assert forall|k: int| 0 <= k < all.len() implies (#[trigger] all[k]).width <= max_width
        || all[k].tokens.len() == 1 by {
        if k > 0 {
            assert(breaks[k - 1] < breaks[k]);
        }
        assert(0 < breaks[k] <= filled.len());
    }
}

impl TextLayoutEngine {
    /// Breaks a paragraph into lines and builds each line.
    pub fn compose_paragraph(
        &self,
        tokens: &Vec<TextToken>,
        max_width: i64,
        leading: i64,
        is_chinese: bool,
    ) -> (lines: Vec<FormattedLine>)
        requires
            self.font_context.valid(),
            supported(token_views(tokens@)),
            -MAX_LENGTH <= max_width <= MAX_LENGTH,
            0 <= leading <= MAX_LEADING,
        ensures
            line_views(lines@) == composed(
                self.font_context,
                token_views(tokens@),
                is_chinese,
                max_width as int,
                leading as int,
            ),
            measured(self.font_context, line_views(lines@), is_chinese),
            texts_agree(line_views(lines@)),
            forall|k: int|
                0 <= k < lines@.len() ==> (#[trigger] lines@[k])@.width <= max_width
                    || lines@[k]@.tokens.len() == 1,
    {
        let ghost given = token_views(tokens@);
        proof {
            lemma_composed_measured(
                self.font_context,
                given,
                is_chinese,
                max_width as int,
                leading as int,
            );
            lemma_composed_no_overflow(
                self.font_context,
                given,
                is_chinese,
                max_width as int,
                leading as int,
            );
        }
        let ghost ctx = self.font_context;
        let breakpoints = self.find_breakpoints(tokens, is_chinese);
        let (filled, breaks) = self.greedy_line_breaks(tokens, &breakpoints, max_width, is_chinese);
        let ghost ts = token_views(filled@);
        let ghost bs = as_ints(breaks@);
        proof {
            let listed_set = as_ints(breakpoints@).to_set();
            let pred = |k: int| legal_break(given, k);
            assert forall|k: int| listed_set.contains(k) <==> legal_set(given).contains(k) by {
                let ints = as_ints(breakpoints@);
                if listed_set.contains(k) {
                    assert(ints.contains(k));
                    let x = choose|x: int| 0 <= x < ints.len() && ints[x] == k;
                    assert(pred(breakpoints@[x] as int));
                }
                if legal_break(given, k) {
                    assert(pred(k));
                    let x = choose|x: int| 0 <= x < breakpoints@.len() && breakpoints@[x] == k;
                    assert(ints[x] == k);
                    assert(ints.contains(k));
                }
            }
            assert(listed_set =~= legal_set(given));
            lemma_no_overflow(ctx, given, is_chinese, legal_set(given), max_width as int);
            lemma_breaks_ascend(ctx, ts, is_chinese, max_width as int, 0, bs);
        }
        let font_size: i64 = if is_chinese {
            self.font_context.font_size_chinese
        } else {
            self.font_context.font_size_english
        };
        let justify: bool = !is_chinese && self.font_context.justification
            == Justification::Justify;
        let mut lines: Vec<FormattedLine> = Vec::new();
        let mut start: usize = 0;
        let mut baseline: i64 = 0;
        let mut k: usize = 0;
        while k < breaks.len()
            invariant
                ts == token_views(filled@),
                ctx == self.font_context,
                ctx.valid(),
                supported(ts),
                -MAX_LENGTH <= max_width <= MAX_LENGTH,
                0 <= leading <= MAX_LEADING,
                bs == as_ints(breaks@),
                bs.len() <= ts.len(),
                forall|x: int| 0 <= x < bs.len() ==> 0 < #[trigger] bs[x] <= ts.len(),
                forall|x: int| 1 <= x < bs.len() ==> bs[x - 1] < #[trigger] bs[x],
                k <= breaks.len(),
                start == line_start(bs, k as int),
                baseline == k * leading,
                font_size == ctx.size(is_chinese),
                justify == (!is_chinese && ctx.justification == Justification::Justify),
                lines@.len() == k,
                forall|x: int|
                    0 <= x < k ==> (#[trigger] lines@[x])@ == composed_lines(
                        ctx,
                        ts,
                        is_chinese,
                        max_width as int,
                        leading as int,
                        bs,
                    )[x],
            decreases breaks.len() - k,
        {
            let end = breaks[k];
            proof {
                assert(bs[k as int] == end);
                if k > 0 {
                    assert(bs[k - 1] < bs[k as int]);
                }
                lemma_subrange_chars(ts, start as int, end as int);
                assert(k * leading <= 1_000_000 * 20_000_000_000) by (nonlinear_arith)
                    requires
                        0 <= k <= 1_000_000,
                        0 <= leading <= 20_000_000_000,
                ;
                assert((k + 1) * leading == k * leading + leading) by (nonlinear_arith);
            }
            let line_tokens = clone_tokens(&filled, start, end);
            assert(token_views(line_tokens@) == ts.subrange(start as int, end as int));
            let width: i64 = self.calculate_line_width(&line_tokens, is_chinese);
            let (justified, adjustments): (Vec<TextToken>, Vec<SpaceAdjustment>) = if justify && k
                != 0 {
                self.justify_line(&line_tokens, max_width, is_chinese)
            } else {
                (line_tokens, Vec::new())
            };
            let text = tokens_to_text(&justified);
            let hyphenated = tokens_end_with_hyphen(&justified);
            let is_justified = adjustments.len() > 0;
            let line = FormattedLine {
                text,
                x: 0,
                y: 0,
                width,
                height: leading,
                is_chinese,
                font_size,
                baseline,
                tokens: justified,
                space_adjustments: adjustments,
                is_justified,
                hyphenated,
            };
            assert(line@ == composed_lines(
                ctx,
                ts,
                is_chinese,
                max_width as int,
                leading as int,
                bs,
            )[k as int]);
            lines.push(line);
            baseline = baseline + leading;
            start = end;
            k += 1;
        }
        assert(line_views(lines@) =~= composed_lines(
            ctx,
            ts,
            is_chinese,
            max_width as int,
            leading as int,
            bs,
        ));
        assert forall|k: int| 0 <= k < lines@.len() implies (#[trigger] lines@[k])@.width
            <= max_width || lines@[k]@.tokens.len() == 1 by {
            assert(line_views(lines@)[k] == lines@[k]@);
        }
        lines
    }
}

} // verus!
