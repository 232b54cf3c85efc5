//! Bilingual (Chinese/English) paragraph typesetting and PDF document assembly.
//!
//! Lengths are integers in thousandths of a point. Multipliers and ratios are
//! integers in thousandths. Tracking is in thousandths of an em, kerning in
//! font units.
//!
//! Text goes one way through the modules: `typography` normalizes it, splits
//! it into the tokens of `tokens`, and lays a paragraph out with the line
//! ends of `breaking`, the justification of `justify`, the lines of
//! `compose` and the passes of `tidy`. `bilingual_generator` places the
//! paragraphs on pages and builds the document of `document` with the fonts
//! of `font_objects` and the content streams of `content`. `hocr_layer`
//! describes the same paragraphs as a searchable text layer.

pub mod bilingual_generator;
pub mod breaking;
pub mod chars;
pub mod compose;
pub mod content;
pub mod document;
pub mod font_objects;
pub mod fonts;
pub mod hocr_layer;
pub mod justify;
pub mod lines;
pub mod splitting;
pub mod tidy;
pub mod tokens;
pub mod typography;
pub mod units;
