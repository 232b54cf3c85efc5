//! Justification: the slack of a line spread over its spaces.

use crate::fonts::FontContext;
use crate::lines::SpaceAdjustment;
use crate::tokens::{
    clone_tokens, count_spaces, lemma_subrange_chars, supported, TextToken, Token, token_views,
    tokens_chars, tokens_width,
};
use crate::typography::TextLayoutEngine;
use crate::units::{clamp, clamp_i64, div_trunc, lemma_trunc_div_bounds, MAX_LENGTH, trunc_div};
use vstd::prelude::*;
use vstd::string::StrSliceExecFns;

verus! {

/// The width of an unadjusted space.
pub open spec fn space_width(ctx: FontContext, is_chinese: bool) -> int {
    ctx.text_width(seq![' '], is_chinese)
}

/// How much justification adds to each space of a line: the slack divided
/// evenly among the spaces, limited to half the width of a space either way.
pub open spec fn justify_amount(
    ctx: FontContext,
    ts: Seq<Token>,
    is_chinese: bool,
    max_width: int,
) -> int {
    let base = space_width(ctx, is_chinese);
    clamp(
        trunc_div(max_width - tokens_width(ctx, ts, is_chinese), count_spaces(ts)),
        -trunc_div(base, 2),
        trunc_div(base, 2),
    )
}

/// An adjustment as a fraction of the base width, in thousandths.
pub open spec fn adjustment_ratio(amount: int, base: int) -> int {
    if base > 0 {
        trunc_div(amount * 1000, base)
    } else {
        0
    }
}

/// One record for each space of `ts`, at the space's character position.
pub open spec fn adjustments_of(ts: Seq<Token>, base: int, amount: int) -> Seq<SpaceAdjustment>
    decreases ts.len(),
{
    if ts.len() == 0 {
        Seq::empty()
    } else {
        let rest = adjustments_of(ts.drop_last(), base, amount);
        if ts.last() is Space {
            rest.push(
                SpaceAdjustment {
                    position: tokens_chars(ts.drop_last()) as usize,
                    base_width: base as i64,
                    adjusted_width: (base + amount) as i64,
                    adjustment_ratio: adjustment_ratio(amount, base) as i64,
                },
            )
        } else {
            rest
        }
    }
}

/// The adjustments that justification records for a line: none where the
/// line has no slack or no space.
pub open spec fn justified_adjustments(
    ctx: FontContext,
    ts: Seq<Token>,
    is_chinese: bool,
    max_width: int,
) -> Seq<SpaceAdjustment> {
    if max_width - tokens_width(ctx, ts, is_chinese) <= 0 || ts.len() == 0 || count_spaces(ts)
        == 0 {
        Seq::empty()
    } else {
        adjustments_of(
            ts,
            space_width(ctx, is_chinese),
            justify_amount(ctx, ts, is_chinese, max_width),
        )
    }
}

/// A ratio of an amount within half the base width lies within a half.
pub proof fn lemma_ratio_clamped(amount: int, base: int)
    requires
        0 <= base,
        -trunc_div(base, 2) <= amount <= trunc_div(base, 2),
    ensures
        -500 <= adjustment_ratio(amount, base) <= 500,
{
    if base > 0 {
        let h = base / 2;
        assert(2 * h <= base) by (nonlinear_arith)
            requires
                h == base / 2,
                base >= 0,
        ;
        lemma_trunc_div_bounds(amount * 1000, base);
        if amount >= 0 {
            assert((amount * 1000) / base <= 500) by (nonlinear_arith)
                requires
                    0 <= amount,
                    2 * amount <= base,
                    base > 0,
            ;
        } else {
            let m = -amount;
            assert(-(amount * 1000) == m * 1000) by (nonlinear_arith)
                requires
                    m == -amount,
            ;
            assert((m * 1000) / base <= 500) by (nonlinear_arith)
                requires
                    0 <= m,
                    2 * m <= base,
                    base > 0,
            ;
        }
    }
}

/// Every recorded adjustment has the given base, and its ratio is that of
/// the amount.
pub proof fn lemma_adjustments_uniform(ts: Seq<Token>, base: int, amount: int)
    ensures
        adjustments_of(ts, base, amount).len() == count_spaces(ts),
        forall|k: int|
            0 <= k < adjustments_of(ts, base, amount).len() ==> (#[trigger] adjustments_of(
                ts,
                base,
                amount,
            )[k]).adjustment_ratio == adjustment_ratio(amount, base) as i64,
    decreases ts.len(),
{
    if ts.len() > 0 {
        lemma_adjustments_uniform(ts.drop_last(), base, amount);
    }
}

/// Every space-adjustment ratio of a justified line lies between minus a
/// half and a half.
pub proof fn lemma_justification_clamp(
    ctx: FontContext,
    ts: Seq<Token>,
    is_chinese: bool,
    max_width: int,
)
    requires
        ctx.valid(),
    ensures
        forall|k: int|
            0 <= k < justified_adjustments(ctx, ts, is_chinese, max_width).len() ==> -500 <= (
            #[trigger] justified_adjustments(ctx, ts, is_chinese, max_width)[k]).adjustment_ratio
                <= 500,
{
    let base = space_width(ctx, is_chinese);
    let amount = justify_amount(ctx, ts, is_chinese, max_width);
    assert(seq![' '].len() == 1);
    assert(0 <= base);
    lemma_trunc_div_bounds(base, 2);
    lemma_ratio_clamped(amount, base);
    lemma_adjustments_uniform(ts, base, amount);
}

impl TextLayoutEngine {
    /// Justifies a line: returns its tokens and one adjustment for each of
    /// its spaces.
    pub fn justify_line(&self, tokens: &Vec<TextToken>, max_width: i64, is_chinese: bool) -> (out:
        (Vec<TextToken>, Vec<SpaceAdjustment>))
        requires
            self.font_context.valid(),
            supported(token_views(tokens@)),
            -MAX_LENGTH <= max_width <= MAX_LENGTH,
        ensures
            out.0@ == tokens@,
            out.1@ == justified_adjustments(
                self.font_context,
                token_views(tokens@),
                is_chinese,
                max_width as int,
            ),
            forall|k: int|
                0 <= k < out.1@.len() ==> -500 <= (#[trigger] out.1@[k]).adjustment_ratio <= 500,
    {
        let ghost ts = token_views(tokens@);
        let ghost ctx = self.font_context;
        proof {
            lemma_justification_clamp(ctx, ts, is_chinese, max_width as int);
        }
        let current: i64 = self.calculate_line_width(tokens, is_chinese);
        let copy = clone_tokens(tokens, 0, tokens.len());
        assert(tokens@.subrange(0, tokens.len() as int) == tokens@);
        let mut adjustments: Vec<SpaceAdjustment> = Vec::new();
        let extra: i64 = max_width - current;
        if extra <= 0 || tokens.len() == 0 {
            return (copy, adjustments);
        }
        // count the spaces
        let mut spaces: usize = 0;
        let mut c: usize = 0;
        while c < tokens.len()
            invariant
                c <= tokens.len(),
                ts == token_views(tokens@),
                spaces == count_spaces(ts.take(c as int)),
                spaces <= c,
            decreases tokens.len() - c,
        {
            proof {
                assert(ts.take(c + 1).drop_last() == ts.take(c as int));
                assert(ts.take(c + 1).last() == tokens@[c as int]@);
            }
            match &tokens[c] {
                TextToken::Space => {
                    spaces += 1;
                },
                _ => {},
            }
            c += 1;
        }
        assert(ts.take(tokens.len() as int) == ts);
        if spaces == 0 {
            return (copy, adjustments);
        }
        let one: Vec<char> = vec![' '];
        assert(one@ == seq![' ']);
        let base: i64 = self.font_context.measure_chars(&one, is_chinese);
        assert(0 <= base <= MAX_LENGTH);
        let share: i64 = div_trunc(extra, spaces as i64);
        let half: i64 = div_trunc(base, 2);
        proof {
            lemma_trunc_div_bounds(base as int, 2);
        }
        let amount: i64 = clamp_i64(share, -half, half);
        let ratio: i64 = if base > 0 {
            proof {
                lemma_ratio_clamped(amount as int, base as int);
                assert(-10_000_000_000 <= amount * 1000 <= 10_000_000_000) by (nonlinear_arith)
                    requires
                        -10_000_000 <= amount <= 10_000_000,
                ;
            }
            div_trunc(amount * 1000, base)
        } else {
            0
        };
        assert(amount == justify_amount(ctx, ts, is_chinese, max_width as int));
        assert(ratio == adjustment_ratio(amount as int, base as int));
        let mut position: usize = 0;
        let mut i: usize = 0;
        while i < tokens.len()
            invariant
                i <= tokens.len(),
                ts == token_views(tokens@),
                supported(ts),
                position == tokens_chars(ts.take(i as int)),
                adjustments@ == adjustments_of(ts.take(i as int), base as int, amount as int),
                0 <= base <= MAX_LENGTH,
                -MAX_LENGTH <= amount <= MAX_LENGTH,
                ratio == adjustment_ratio(amount as int, base as int),
                -500 <= ratio <= 500,
            decreases tokens.len() - i,
        {
            proof {
                assert(ts.take(i + 1).drop_last() == ts.take(i as int));
                assert(ts.take(i + 1).last() == tokens@[i as int]@);
                assert(ts.take(i + 1) == ts.subrange(0, i + 1));
                lemma_subrange_chars(ts, 0, i + 1);
            }
            match &tokens[i] {
                TextToken::Space => {
                    adjustments.push(
                        SpaceAdjustment {
                            position,
                            base_width: base,
                            adjusted_width: base + amount,
                            adjustment_ratio: ratio,
                        },
                    );
                    position += 1;
                },
                TextToken::Word(w) => {
                    position += w.as_str().unicode_len();
                },
                _ => {
                    position += 1;
                },
            }
            i += 1;
        }
        assert(ts.take(tokens.len() as int) == ts);
        proof {
            lemma_justification_clamp(ctx, ts, is_chinese, max_width as int);
            assert(adjustments@ == justified_adjustments(ctx, ts, is_chinese, max_width as int));
        }
        (copy, adjustments)
    }
}

} // verus!
