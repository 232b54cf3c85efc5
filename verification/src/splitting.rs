//! Splitting text into pieces: Chinese text at its punctuation, long words by
//! width.

use crate::chars::{chars_to_string, string_to_chars};
use crate::fonts::FontContext;
use crate::tokens::punctuation;
use crate::typography::{is_chinese_punctuation, TextLayoutEngine};
use crate::units::MAX_TEXT_CHARS;
use vstd::prelude::*;

verus! {

/// The values of a sequence of strings.
pub open spec fn string_views(v: Seq<String>) -> Seq<Seq<char>> {
    v.map_values(|s: String| s@)
}

/// `s` cut into pieces of `size` characters; the last piece holds what is
/// left.
pub open spec fn chunks(s: Seq<char>, size: int) -> Seq<Seq<char>>
    recommends
        size > 0,
    decreases s.len(),
{
    if s.len() == 0 || size <= 0 {
        Seq::empty()
    } else if s.len() <= size {
        seq![s]
    } else {
        seq![s.take(size)] + chunks(s.skip(size), size)
    }
}

/// The segments of Chinese text that are complete once `s` has been read:
/// each ends with a punctuation mark.
pub open spec fn segments_done(s: Seq<char>) -> Seq<Seq<char>>
    decreases s.len(),
{
    if s.len() == 0 {
        Seq::empty()
    } else if is_chinese_punctuation(s.last()) {
        segments_done(s.drop_last()).push(segment_open(s.drop_last()).push(s.last()))
    } else {
        segments_done(s.drop_last())
    }
}

/// The segment under construction once `s` has been read.
pub open spec fn segment_open(s: Seq<char>) -> Seq<char>
    decreases s.len(),
{
    if s.len() == 0 {
        Seq::empty()
    } else if is_chinese_punctuation(s.last()) {
        Seq::empty()
    } else {
        segment_open(s.drop_last()).push(s.last())
    }
}

/// The segments of Chinese text: it is cut after every punctuation mark.
pub open spec fn segments(s: Seq<char>) -> Seq<Seq<char>> {
    if segment_open(s).len() > 0 {
        segments_done(s).push(segment_open(s))
    } else {
        segments_done(s)
    }
}

/// Chinese text split for reading: its segments, or pieces of twenty
/// characters where it has no more than one segment.
pub open spec fn chinese_split(s: Seq<char>) -> Seq<Seq<char>> {
    if segments(s).len() <= 1 {
        chunks(s, 20)
    } else {
        segments(s)
    }
}

/// The pieces of a long word that are complete once its first `n`
/// characters have been placed, each piece as wide as fits `max_width`.
pub open spec fn pieces_done(
    ctx: FontContext,
    word: Seq<char>,
    max_width: int,
    n: int,
) -> Seq<Seq<char>>
    decreases n,
{
    if n <= 0 {
        Seq::empty()
    } else {
        let done = pieces_done(ctx, word, max_width, n - 1);
        let open = piece_open(ctx, word, max_width, n - 1);
        let c = word[n - 1];
        if ctx.text_width(open.push(c), false) <= max_width {
            done
        } else if open.len() > 0 {
            done.push(open)
        } else {
            done.push(seq![c])
        }
    }
}

/// The piece under construction once the first `n` characters of a long
/// word have been placed.
pub open spec fn piece_open(ctx: FontContext, word: Seq<char>, max_width: int, n: int) -> Seq<char>
    decreases n,
{
    if n <= 0 {
        Seq::empty()
    } else {
        let open = piece_open(ctx, word, max_width, n - 1);
        let c = word[n - 1];
        if ctx.text_width(open.push(c), false) <= max_width {
            open.push(c)
        } else if open.len() > 0 {
            seq![c]
        } else {
            Seq::empty()
        }
    }
}

/// A long Latin word broken into pieces that fit `max_width`; a character
/// that alone is too wide is a piece of its own.
pub open spec fn word_pieces(ctx: FontContext, word: Seq<char>, max_width: int) -> Seq<Seq<char>> {
    let open = piece_open(ctx, word, max_width, word.len() as int);
    if open.len() > 0 {
        pieces_done(ctx, word, max_width, word.len() as int).push(open)
    } else {
        pieces_done(ctx, word, max_width, word.len() as int)
    }
}

impl TextLayoutEngine {
    /// Cuts a text into pieces of `max_length` characters.
    pub fn split_chinese_by_length(&self, text: &str, max_length: usize) -> (pieces: Vec<String>)
        requires
            max_length > 0,
        ensures
            string_views(pieces@) == chunks(text@, max_length as int),
    {
        let chars = string_to_chars(text);
        let mut pieces: Vec<String> = Vec::new();
        let mut i: usize = 0;
        assert(chars@.skip(0) == chars@);
        assert(string_views(pieces@) =~= Seq::<Seq<char>>::empty());
        while i < chars.len()
            invariant
                max_length > 0,
                chars@ == text@,
                i <= chars.len(),
                string_views(pieces@) + chunks(chars@.skip(i as int), max_length as int) == chunks(
                    chars@,
                    max_length as int,
                ),
            decreases chars.len() - i,
        {
            let left = chars.len() - i;
            let take: usize = if left <= max_length {
                left
            } else {
                max_length
            };
            let mut piece: Vec<char> = Vec::new();
            let mut k: usize = 0;
            while k < take
                invariant
                    i + take <= chars.len(),
                    k <= take,
                    piece@ == chars@.subrange(i as int, i + k),
                decreases take - k,
            {
                piece.push(chars[i + k]);
                k += 1;
                assert(chars@.subrange(i as int, i + k) == chars@.subrange(i as int, i + k - 1).push(
                    chars@[i + k - 1],
                ));
            }
            let ghost rest = chars@.skip(i as int);
            let ghost before = string_views(pieces@);
            pieces.push(chars_to_string(&piece));
            proof {
                assert(piece@ == rest.take(take as int));
                assert(string_views(pieces@) == before.push(piece@));
                if left <= max_length {
                    assert(rest.take(take as int) == rest);
                    assert(chars@.skip(i + take).len() == 0);
                    assert(chunks(rest, max_length as int) == seq![rest]);
                    assert(before.push(piece@) + chunks(chars@.skip(i + take), max_length as int)
                        == before + seq![rest]);
                } else {
                    assert(rest.skip(take as int) == chars@.skip(i + take));
                    assert(before.push(piece@) + chunks(chars@.skip(i + take), max_length as int)
                        == before + (seq![piece@] + chunks(
                        chars@.skip(i + take),
                        max_length as int,
                    )));
                }
            }
            i += take;
        }
        assert(chars@.skip(chars.len() as int).len() == 0);
        assert(string_views(pieces@) + Seq::<Seq<char>>::empty() == string_views(pieces@));
        pieces
    }

    /// Splits Chinese text for reading: after every punctuation mark, or
    /// into pieces of twenty characters where it has no more than one
    /// segment.
    pub fn split_chinese_text(&self, text: &str) -> (pieces: Vec<String>)
        ensures
            string_views(pieces@) == chinese_split(text@),
    {
        let chars = string_to_chars(text);
        let mut done: Vec<String> = Vec::new();
        let mut open: Vec<char> = Vec::new();
        let mut i: usize = 0;
        assert(string_views(done@) =~= Seq::<Seq<char>>::empty());
        while i < chars.len()
            invariant
                chars@ == text@,
                i <= chars.len(),
                string_views(done@) == segments_done(chars@.take(i as int)),
                open@ == segment_open(chars@.take(i as int)),
            decreases chars.len() - i,
        {
            let c = chars[i];
            proof {
                assert(chars@.take(i + 1).drop_last() == chars@.take(i as int));
                assert(chars@.take(i + 1).last() == c);
            }
            open.push(c);
            if self.is_natural_break_point(c) {
                let ghost before = string_views(done@);
                done.push(chars_to_string(&open));
                assert(string_views(done@) == before.push(open@));
                open = Vec::new();
            }
            i += 1;
        }
        assert(chars@.take(chars.len() as int) == chars@);
        if open.len() > 0 {
            let ghost before = string_views(done@);
            done.push(chars_to_string(&open));
            assert(string_views(done@) == before.push(open@));
        }
        if done.len() <= 1 {
            self.split_chinese_by_length(text, 20)
        } else {
            done
        }
    }

    /// Breaks a long Latin word into pieces that fit `max_width`.
    pub fn break_long_word_static(word: &str, max_width: i64, font_context: &FontContext) -> (pieces:
        Vec<String>)
        requires
            font_context.valid(),
            word@.len() < MAX_TEXT_CHARS,
        ensures
            string_views(pieces@) == word_pieces(*font_context, word@, max_width as int),
    {
        let chars = string_to_chars(word);
        let mut done: Vec<String> = Vec::new();
        let mut open: Vec<char> = Vec::new();
        let mut i: usize = 0;
        assert(string_views(done@) =~= Seq::<Seq<char>>::empty());
        while i < chars.len()
            invariant
                font_context.valid(),
                chars@ == word@,
                chars@.len() < MAX_TEXT_CHARS,
                i <= chars.len(),
                string_views(done@) == pieces_done(*font_context, chars@, max_width as int, i as int),
                open@ == piece_open(*font_context, chars@, max_width as int, i as int),
                open@.len() <= i,
            decreases chars.len() - i,
        {
            let c = chars[i];
            let ghost before = string_views(done@);
            let ghost old_open = open@;
            let mut test: Vec<char> = Vec::new();
            let mut k: usize = 0;
            while k < open.len()
                invariant
                    k <= open.len(),
                    test@ == open@.take(k as int),
                decreases open.len() - k,
            {
                test.push(open[k]);
                k += 1;
                assert(open@.take(k as int) == open@.take(k - 1).push(open@[k - 1]));
            }
            assert(open@.take(open.len() as int) == open@);
            test.push(c);
            assert(test@ == old_open.push(c));
            let width: i64 = font_context.measure_chars(&test, false);
            if width <= max_width {
                open = test;
            } else if open.len() > 0 {
                done.push(chars_to_string(&open));
                assert(string_views(done@) == before.push(old_open));
                open = vec![c];
                assert(open@ == seq![c]);
            } else {
                let one: Vec<char> = vec![c];
                assert(one@ == seq![c]);
                done.push(chars_to_string(&one));
                assert(string_views(done@) == before.push(seq![c]));
            }
            i += 1;
        }
        if open.len() > 0 {
            let ghost before = string_views(done@);
            done.push(chars_to_string(&open));
            assert(string_views(done@) == before.push(open@));
        }
        done
    }

    /// Breaks a long Latin word: the word is handed back whole.
    pub fn break_long_word(&self, word: &str, _max_width: i64) -> (pieces: Vec<String>)
        ensures
            string_views(pieces@) == seq![word@],
    {
        let mut pieces: Vec<String> = Vec::new();
        pieces.push(word.to_owned());
        assert(string_views(pieces@) =~= seq![word@]);
        pieces
    }
}

} // verus!
