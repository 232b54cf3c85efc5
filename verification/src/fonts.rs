//! Font metrics tables and the settings of one document.

use crate::chars::string_to_chars;
use crate::units::{
    clamp, clamp_i64, lemma_trunc_div_bounds, MAX_KERN, MAX_LENGTH, MAX_MULTIPLIER, MAX_TEXT_CHARS,
    MAX_TRACKING, PER_CHAR_LIMIT, scale, scale_i64,
};
use std::collections::HashMap;
use vstd::prelude::*;

verus! {

/// How the lines of a Latin paragraph are aligned.
#[derive(Clone, Copy, Debug, PartialEq, Eq, Structural)]
pub enum Justification {
    Left,
    Justify,
}

/// The key under which the kerning of the pair `left`, `right` is stored.
pub open spec fn pair_key(left: char, right: char) -> u64 {
    ((left as u32) as int * 0x1_0000_0000 + (right as u32) as int) as u64
}

/// Computes the key under which the kerning of a pair is stored.
pub fn kerning_key(left: char, right: char) -> (k: u64)
    ensures
        k == pair_key(left, right),
{
    let l: u64 = left as u32 as u64;
    let r: u64 = right as u32 as u64;
    l * 0x1_0000_0000 + r
}

/// The metrics of one face at one size, as plain tables.
///
/// Advances are lengths at the configured size, kerning values are in font
/// units. Values outside the supported range are read as the nearest bound.
#[derive(Clone, Debug)]
pub struct GlyphMetrics {
    /// Advance width by code point.
    pub advances: HashMap<u32, i64>,
    /// Advance of a code point that `advances` does not list.
    pub default_advance: i64,
    /// Kerning by pair key.
    pub kerning: HashMap<u64, i64>,
    /// Font units per em; zero is read as one.
    pub units_per_em: u32,
    /// Glyph index by code point; an unlisted code point has glyph 0.
    pub glyph_indices: HashMap<u32, u16>,
}

impl GlyphMetrics {
    /// The advance width of `c`.
    pub open spec fn advance_of(&self, c: char) -> int {
        let raw = if self.advances@.contains_key(c as u32) {
            self.advances@[c as u32] as int
        } else {
            self.default_advance as int
        };
        clamp(raw, 0, MAX_LENGTH as int)
    }

    /// The kerning between `left` and `right` in font units, zero where the
    /// table has none.
    pub open spec fn kern_of(&self, left: char, right: char) -> int {
        let raw = if self.kerning@.contains_key(pair_key(left, right)) {
            self.kerning@[pair_key(left, right)] as int
        } else {
            0
        };
        clamp(raw, -(MAX_KERN as int), MAX_KERN as int)
    }

    /// Font units per em, at least one.
    pub open spec fn em_units(&self) -> int {
        if self.units_per_em == 0 {
            1
        } else {
            self.units_per_em as int
        }
    }

    /// The glyph index of `c`, zero where the face has no glyph for it.
    pub open spec fn glyph_of(&self, c: char) -> u16 {
        if self.glyph_indices@.contains_key(c as u32) {
            self.glyph_indices@[c as u32]
        } else {
            0
        }
    }

    /// An empty table.
    pub fn new(default_advance: i64, units_per_em: u32) -> (m: GlyphMetrics)
        ensures
            m.advances@ == Map::<u32, i64>::empty(),
            m.kerning@ == Map::<u64, i64>::empty(),
            m.glyph_indices@ == Map::<u32, u16>::empty(),
            m.default_advance == default_advance,
            m.units_per_em == units_per_em,
    {
        GlyphMetrics {
            advances: HashMap::new(),
            default_advance,
            kerning: HashMap::new(),
            units_per_em,
            glyph_indices: HashMap::new(),
        }
    }

    /// Records the advance width of `c`.
    pub fn set_advance(&mut self, c: char, advance: i64)
        ensures
            final(self).advances@ == old(self).advances@.insert(c as u32, advance),
            final(self).default_advance == old(self).default_advance,
            final(self).kerning@ == old(self).kerning@,
            final(self).units_per_em == old(self).units_per_em,
            final(self).glyph_indices@ == old(self).glyph_indices@,
    {
        self.advances.insert(c as u32, advance);
    }

    /// Records the kerning of the pair `left`, `right`, in font units.
    pub fn set_kerning(&mut self, left: char, right: char, amount: i64)
        ensures
            final(self).kerning@ == old(self).kerning@.insert(pair_key(left, right), amount),
            final(self).advances@ == old(self).advances@,
            final(self).default_advance == old(self).default_advance,
            final(self).units_per_em == old(self).units_per_em,
            final(self).glyph_indices@ == old(self).glyph_indices@,
    {
        let k = kerning_key(left, right);
        self.kerning.insert(k, amount);
    }

    /// Records the glyph index of `c`.
    pub fn set_glyph_index(&mut self, c: char, glyph: u16)
        ensures
            final(self).glyph_indices@ == old(self).glyph_indices@.insert(c as u32, glyph),
            final(self).advances@ == old(self).advances@,
            final(self).default_advance == old(self).default_advance,
            final(self).kerning@ == old(self).kerning@,
            final(self).units_per_em == old(self).units_per_em,
    {
        self.glyph_indices.insert(c as u32, glyph);
    }

    /// Looks up the glyph index of `c`.
    pub fn glyph_index(&self, c: char) -> (r: u16)
        ensures
            r == self.glyph_of(c),
    {
        match self.glyph_indices.get(&(c as u32)) {
            Some(v) => *v,
            None => 0,
        }
    }

    /// Looks up the advance width of `c`.
    pub fn advance(&self, c: char) -> (r: i64)
        ensures
            r == self.advance_of(c),
            0 <= r <= MAX_LENGTH,
    {
        let raw: i64 = match self.advances.get(&(c as u32)) {
            Some(v) => *v,
            None => self.default_advance,
        };
        clamp_i64(raw, 0, MAX_LENGTH)
    }

    /// Looks up the kerning between `left` and `right`.
    pub fn kern(&self, left: char, right: char) -> (r: i64)
        ensures
            r == self.kern_of(left, right),
            -MAX_KERN <= r <= MAX_KERN,
    {
        let k = kerning_key(left, right);
        let raw: i64 = match self.kerning.get(&k) {
            Some(v) => *v,
            None => 0,
        };
        clamp_i64(raw, -MAX_KERN, MAX_KERN)
    }

    /// Font units per em, at least one.
    pub fn units(&self) -> (r: i64)
        ensures
            r == self.em_units(),
            1 <= r <= u32::MAX,
    {
        if self.units_per_em == 0 {
            1
        } else {
            self.units_per_em as i64
        }
    }
}

/// The loaded faces and the layout settings of one document.
#[derive(Clone, Debug)]
pub struct FontContext {
    /// Metrics of the Chinese face at `font_size_chinese`.
    pub chinese_font: GlyphMetrics,
    /// Human-readable name of the Chinese face.
    pub chinese_font_name: String,
    /// Where the Chinese face was loaded from; its ending tells the format.
    pub chinese_font_path: String,
    /// The Chinese font program, for embedding.
    pub chinese_font_data: Vec<u8>,
    /// Metrics of the Latin face at `font_size_english`.
    pub english_font: GlyphMetrics,
    /// Human-readable name of the Latin face.
    pub english_font_name: String,
    /// Where the Latin face was loaded from.
    pub english_font_path: String,
    /// The Latin font program.
    pub english_font_data: Vec<u8>,
    pub page_width: i64,
    pub page_height: i64,
    pub margin: i64,
    pub font_size_chinese: i64,
    pub font_size_english: i64,
    /// Line height as a multiple of the font size, in thousandths.
    pub line_spacing: i64,
    /// Extra space between Chinese characters, in thousandths of an em.
    pub tracking_chinese: i64,
    /// Extra space between Latin characters, in thousandths of an em.
    pub tracking_english: i64,
    pub justification: Justification,
    /// Space between paragraphs as a multiple of the line height, in thousandths.
    pub paragraph_spacing: i64,
}

impl FontContext {
    /// The settings lie in the range the library lays out.
    pub open spec fn valid(&self) -> bool {
        &&& 0 < self.page_width <= MAX_LENGTH
        &&& 0 < self.page_height <= MAX_LENGTH
        &&& 0 <= self.margin <= MAX_LENGTH
        &&& 0 < self.font_size_chinese <= MAX_LENGTH
        &&& 0 < self.font_size_english <= MAX_LENGTH
        &&& 0 <= self.line_spacing <= MAX_MULTIPLIER
        &&& -MAX_TRACKING <= self.tracking_chinese <= MAX_TRACKING
        &&& -MAX_TRACKING <= self.tracking_english <= MAX_TRACKING
        &&& 0 <= self.paragraph_spacing <= MAX_MULTIPLIER
    }

    /// The metrics table of the script.
    pub open spec fn metrics(&self, is_chinese: bool) -> GlyphMetrics {
        if is_chinese {
            self.chinese_font
        } else {
            self.english_font
        }
    }

    /// The font size of the script.
    pub open spec fn size(&self, is_chinese: bool) -> int {
        if is_chinese {
            self.font_size_chinese as int
        } else {
            self.font_size_english as int
        }
    }

    /// The tracking of the script, in thousandths of an em.
    pub open spec fn tracking(&self, is_chinese: bool) -> int {
        if is_chinese {
            self.tracking_chinese as int
        } else {
            self.tracking_english as int
        }
    }

    /// What lies between two adjacent characters beyond their advances:
    /// the pair's kerning and the tracking, both as lengths at the font size.
    pub open spec fn gap(&self, left: char, right: char, is_chinese: bool) -> int {
        scale(
            self.metrics(is_chinese).kern_of(left, right),
            self.size(is_chinese),
            self.metrics(is_chinese).em_units(),
        ) + scale(self.tracking(is_chinese), self.size(is_chinese), 1000)
    }

    /// The measured width of a run of characters: the advances of all of them
    /// and the gaps between neighbours.
    pub open spec fn text_width(&self, s: Seq<char>, is_chinese: bool) -> int
        decreases s.len(),
    {
        if s.len() == 0 {
            0
        } else if s.len() == 1 {
            self.metrics(is_chinese).advance_of(s[0])
        } else {
            self.text_width(s.drop_last(), is_chinese) + self.gap(
                s[s.len() - 2],
                s[s.len() - 1],
                is_chinese,
            ) + self.metrics(is_chinese).advance_of(s[s.len() - 1])
        }
    }

    /// The line height of the script: font size times line spacing.
    pub open spec fn line_height(&self, is_chinese: bool) -> int {
        scale(self.size(is_chinese), self.line_spacing as int, 1000)
    }

    /// A gap is bounded by the limits on kerning, tracking and size.
    pub proof fn lemma_gap_bound(&self, left: char, right: char, is_chinese: bool)
        requires
            self.valid(),
        ensures
            -1_001_000_000_000 <= self.gap(left, right, is_chinese) <= 1_001_000_000_000,
    {
        let k = self.metrics(is_chinese).kern_of(left, right);
        let z = self.size(is_chinese);
        let t = self.tracking(is_chinese);
        assert(-1_000_000_000_000 <= k * z <= 1_000_000_000_000) by (nonlinear_arith)
            requires
                -50_000 <= k <= 50_000,
                0 < z <= 20_000_000,
        ;
        assert(-1_000_000_000_000 <= t * z <= 1_000_000_000_000) by (nonlinear_arith)
            requires
                -50_000 <= t <= 50_000,
                0 < z <= 20_000_000,
        ;
        lemma_trunc_div_bounds(k * z, self.metrics(is_chinese).em_units());
        lemma_trunc_div_bounds(t * z, 1000);
        let p = t * z;
        if p >= 0 {
            assert(p / 1000 <= 1_000_000_000) by (nonlinear_arith)
                requires
                    0 <= p <= 1_000_000_000_000,
            ;
        } else {
            let m = -p;
            assert(m / 1000 <= 1_000_000_000) by (nonlinear_arith)
                requires
                    0 <= m <= 1_000_000_000_000,
            ;
        }
    }

    /// A measured width is bounded by the number of characters.
    pub proof fn lemma_text_width_bound(&self, s: Seq<char>, is_chinese: bool)
        requires
            self.valid(),
        ensures
            -(s.len() * PER_CHAR_LIMIT) <= self.text_width(s, is_chinese) <= s.len()
                * PER_CHAR_LIMIT,
        decreases s.len(),
    {
        if s.len() >= 2 {
            self.lemma_text_width_bound(s.drop_last(), is_chinese);
            self.lemma_gap_bound(s[s.len() - 2], s[s.len() - 1], is_chinese);
            let n = s.len() as int;
            assert((n - 1) * PER_CHAR_LIMIT + PER_CHAR_LIMIT == n * PER_CHAR_LIMIT)
                by (nonlinear_arith);
        }
    }

    /// A context with the given faces and the default settings: an A4 page
    /// with one-inch margins, 13 pt Chinese and 12 pt Latin text, line
    /// spacing 1.4, tracking 12 and 8, justified Latin text and paragraph
    /// spacing 0.6.
    pub fn initialize_fonts(
        chinese_font: GlyphMetrics,
        chinese_font_name: String,
        chinese_font_path: String,
        chinese_font_data: Vec<u8>,
        english_font: GlyphMetrics,
        english_font_name: String,
        english_font_path: String,
        english_font_data: Vec<u8>,
    ) -> (ctx: FontContext)
        ensures
            ctx.valid(),
            ctx.chinese_font == chinese_font,
            ctx.chinese_font_name == chinese_font_name,
            ctx.chinese_font_path == chinese_font_path,
            ctx.chinese_font_data == chinese_font_data,
            ctx.english_font == english_font,
            ctx.english_font_name == english_font_name,
            ctx.english_font_path == english_font_path,
            ctx.english_font_data == english_font_data,
            ctx.page_width == 595_000,
            ctx.page_height == 842_000,
            ctx.margin == 72_000,
            ctx.font_size_chinese == 13_000,
            ctx.font_size_english == 12_000,
            ctx.line_spacing == 1400,
            ctx.tracking_chinese == 12,
            ctx.tracking_english == 8,
            ctx.justification == Justification::Justify,
            ctx.paragraph_spacing == 600,
    {
        FontContext {
            chinese_font,
            chinese_font_name,
            chinese_font_path,
            chinese_font_data,
            english_font,
            english_font_name,
            english_font_path,
            english_font_data,
            page_width: 595_000,
            page_height: 842_000,
            margin: 72_000,
            font_size_chinese: 13_000,
            font_size_english: 12_000,
            line_spacing: 1400,
            tracking_chinese: 12,
            tracking_english: 8,
            justification: Justification::Justify,
            paragraph_spacing: 600,
        }
    }

    /// Tests whether the settings lie in the range the library lays out.
    pub fn is_valid(&self) -> (r: bool)
        ensures
            r == self.valid(),
    {
        0 < self.page_width && self.page_width <= MAX_LENGTH && 0 < self.page_height
            && self.page_height <= MAX_LENGTH && 0 <= self.margin && self.margin <= MAX_LENGTH
            && 0 < self.font_size_chinese && self.font_size_chinese <= MAX_LENGTH && 0
            < self.font_size_english && self.font_size_english <= MAX_LENGTH && 0
            <= self.line_spacing && self.line_spacing <= MAX_MULTIPLIER && -MAX_TRACKING
            <= self.tracking_chinese && self.tracking_chinese <= MAX_TRACKING && -MAX_TRACKING
            <= self.tracking_english && self.tracking_english <= MAX_TRACKING && 0
            <= self.paragraph_spacing && self.paragraph_spacing <= MAX_MULTIPLIER
    }

    /// Replaces the page geometry, the font sizes and the spacing settings.
    pub fn set_options(
        &mut self,
        page_width: i64,
        page_height: i64,
        margin: i64,
        font_size_chinese: i64,
        font_size_english: i64,
        line_spacing: i64,
        tracking_chinese: i64,
        tracking_english: i64,
        paragraph_spacing: i64,
    )
        ensures
            *final(self) == (FontContext {
                page_width,
                page_height,
                margin,
                font_size_chinese,
                font_size_english,
                line_spacing,
                tracking_chinese,
                tracking_english,
                paragraph_spacing,
                ..*old(self)
            }),
    {
        self.page_width = page_width;
        self.page_height = page_height;
        self.margin = margin;
        self.font_size_chinese = font_size_chinese;
        self.font_size_english = font_size_english;
        self.line_spacing = line_spacing;
        self.tracking_chinese = tracking_chinese;
        self.tracking_english = tracking_english;
        self.paragraph_spacing = paragraph_spacing;
    }

    /// The gap between two adjacent characters.
    pub fn gap_between(&self, left: char, right: char, is_chinese: bool) -> (r: i64)
        requires
            self.valid(),
        ensures
            r == self.gap(left, right, is_chinese),
    {
        let size: i64 = if is_chinese {
            self.font_size_chinese
        } else {
            self.font_size_english
        };
        let tracking: i64 = if is_chinese {
            self.tracking_chinese
        } else {
            self.tracking_english
        };
        let (k, em): (i64, i64) = if is_chinese {
            (self.chinese_font.kern(left, right), self.chinese_font.units())
        } else {
            (self.english_font.kern(left, right), self.english_font.units())
        };
        proof {
            self.lemma_gap_bound(left, right, is_chinese);
            assert(-1_000_000_000_000 <= k * size <= 1_000_000_000_000) by (nonlinear_arith)
                requires
                    -50_000 <= k <= 50_000,
                    0 < size <= 20_000_000,
            ;
            assert(-1_000_000_000_000 <= tracking * size <= 1_000_000_000_000)
                by (nonlinear_arith)
                requires
                    -50_000 <= tracking <= 50_000,
                    0 < size <= 20_000_000,
            ;
            lemma_trunc_div_bounds(k * size, em as int);
            lemma_trunc_div_bounds(tracking * size, 1000);
        }
        let a: i64 = scale_i64(k, size, em);
        let b: i64 = scale_i64(tracking, size, 1000);
        a + b
    }

    /// The measured width of `chars`, with kerning and tracking.
    pub fn measure_chars(&self, chars: &Vec<char>, is_chinese: bool) -> (width: i64)
        requires
            self.valid(),
            chars@.len() <= MAX_TEXT_CHARS,
        ensures
            width == self.text_width(chars@, is_chinese),
    {
        let mut width: i64 = 0;
        let mut i: usize = 0;
        while i < chars.len()
            invariant
                self.valid(),
                chars@.len() <= MAX_TEXT_CHARS,
                i <= chars.len(),
                width == self.text_width(chars@.take(i as int), is_chinese),
            decreases chars.len() - i,
        {
            let ghost before = chars@.take(i as int);
            let ghost after = chars@.take(i + 1);
            proof {
                assert(after.drop_last() == before);
                self.lemma_text_width_bound(before, is_chinese);
                self.lemma_text_width_bound(after, is_chinese);
                assert(i * PER_CHAR_LIMIT <= 1_000_000 * PER_CHAR_LIMIT) by (nonlinear_arith)
                    requires
                        i <= 1_000_000,
                ;
                assert((i + 1) * PER_CHAR_LIMIT <= 1_000_000 * PER_CHAR_LIMIT)
                    by (nonlinear_arith)
                    requires
                        i + 1 <= 1_000_000,
                ;
            }
            let adv: i64 = if is_chinese {
                self.chinese_font.advance(chars[i])
            } else {
                self.english_font.advance(chars[i])
            };
            if i > 0 {
                proof {
                    self.lemma_gap_bound(chars@[i - 1], chars@[i as int], is_chinese);
                }
                let g: i64 = self.gap_between(chars[i - 1], chars[i], is_chinese);
                width = width + g + adv;
            } else {
                width = adv;
            }
            i += 1;
        }
        assert(chars@.take(chars.len() as int) == chars@);
        width
    }

    /// The measured width of `text`, with kerning and tracking.
    pub fn calculate_text_width(&self, text: &str, is_chinese: bool) -> (width: i64)
        requires
            self.valid(),
            text@.len() <= MAX_TEXT_CHARS,
        ensures
            width == self.text_width(text@, is_chinese),
    {
        let chars = string_to_chars(text);
        self.measure_chars(&chars, is_chinese)
    }

    /// The line height of the script: font size times line spacing.
    pub fn get_line_height(&self, is_chinese: bool) -> (h: i64)
        requires
            self.valid(),
        ensures
            h == self.line_height(is_chinese),
            0 <= h <= 20_000_000_000,
    {
        let size: i64 = if is_chinese {
            self.font_size_chinese
        } else {
            self.font_size_english
        };
        proof {
            let z = size as int;
            let l = self.line_spacing as int;
            assert(0 <= z * l <= 20_000_000_000_000) by (nonlinear_arith)
                requires
                    0 < z <= 20_000_000,
                    0 <= l <= 1_000_000,
            ;
            let p = z * l;
            assert(p / 1000 <= 20_000_000_000) by (nonlinear_arith)
                requires
                    0 <= p <= 20_000_000_000_000,
            ;
            lemma_trunc_div_bounds(p, 1000);
        }
        scale_i64(size, self.line_spacing, 1000)
    }

    /// The page without its margins: left, top, width, height.
    pub fn content_area(&self) -> (area: (i64, i64, i64, i64))
        requires
            self.valid(),
        ensures
            area.0 == self.margin,
            area.1 == self.margin,
            area.2 == self.page_width - 2 * self.margin,
            area.3 == self.page_height - 2 * self.margin,
    {
        (
            self.margin,
            self.margin,
            self.page_width - 2 * self.margin,
            self.page_height - 2 * self.margin,
        )
    }
}

} // verus!
