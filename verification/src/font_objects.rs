//! The fonts of a document: the composite font for Chinese text and the
//! simple font for Latin text, as PDF objects.

use crate::chars::{
    char_is_ascii_alphanumeric, char_is_whitespace, chars_to_string, is_ascii_alphanumeric,
    is_whitespace, string_to_chars,
};
use crate::document::{
    array, byte_stream, dictionary, dictionary_object, DocumentView, Entry, entry, entry_views,
    IndirectObject, IndirectView, literal, make_byte_stream, make_dictionary_object, name,
    object_views, ObjectId, ObjectView, PdfObject, push_entry, same_text, string_literal,
};
use crate::fonts::FontContext;
use std::collections::HashMap;
use vstd::prelude::*;
use vstd::string::StrSliceExecFns;
use vstd::utf8::encode_utf8;

verus! {

/// What is kept of a raw font name: ASCII letters, digits, hyphens and
/// underscores as they are, a hyphen for each white-space character, and
/// nothing of the rest.
pub open spec fn kept_name_chars(raw: Seq<char>) -> Seq<char>
    decreases raw.len(),
{
    if raw.len() == 0 {
        Seq::empty()
    } else {
        let before = kept_name_chars(raw.drop_last());
        let c = raw.last();
        if is_ascii_alphanumeric(c) || c == '-' || c == '_' {
            before.push(c)
        } else if is_whitespace(c) {
            before.push('-')
        } else {
            before
        }
    }
}

/// A raw font name made fit for a document: what is kept of it, or a fixed
/// name where nothing is kept.
pub open spec fn sanitized_name(raw: Seq<char>) -> Seq<char> {
    if kept_name_chars(raw).len() == 0 {
        "CJKFont"@
    } else {
        kept_name_chars(raw)
    }
}

/// The name under which a Chinese face goes into the document: a fixed name
/// for each of five well-known faces, the sanitized name for any other.
pub open spec fn pdf_font_name(name: Seq<char>) -> Seq<char> {
    if name == "Source Han Sans TC Regular"@ {
        "SourceHanSansTC-Regular"@
    } else if name == "Microsoft JhengHei"@ {
        "MicrosoftJhengHei"@
    } else if name == "Microsoft YaHei"@ {
        "MicrosoftYaHei"@
    } else if name == "SimSun"@ {
        "SimSun"@
    } else if name == "SimSun Bold"@ {
        "SimSun-Bold"@
    } else {
        sanitized_name(name)
    }
}

/// Makes a raw font name fit for a document.
pub fn sanitize_pdf_font_name(raw: &str) -> (name: String)
    ensures
        name@ == sanitized_name(raw@),
{
    let chars = string_to_chars(raw);
    let mut out: Vec<char> = Vec::new();
    let mut i: usize = 0;
    while i < chars.len()
        invariant
            i <= chars.len(),
            chars@ == raw@,
            out@ == kept_name_chars(chars@.take(i as int)),
        decreases chars.len() - i,
    {
        let c = chars[i];
        proof {
            assert(chars@.take(i + 1).drop_last() == chars@.take(i as int));
            assert(chars@.take(i + 1).last() == c);
        }
        if char_is_ascii_alphanumeric(c) || c == '-' || c == '_' {
            out.push(c);
        } else if char_is_whitespace(c) {
            out.push('-');
        }
        i += 1;
    }
    assert(chars@.take(chars.len() as int) == chars@);
    if out.len() == 0 {
        "CJKFont".to_owned()
    } else {
        chars_to_string(&out)
    }
}

/// The name under which the Chinese face goes into the document.
pub fn chinese_pdf_font_name(ctx: &FontContext) -> (name: String)
    ensures
        name@ == pdf_font_name(ctx.chinese_font_name@),
{
    let raw = ctx.chinese_font_name.as_str();
    if same_text(raw, "Source Han Sans TC Regular") {
        "SourceHanSansTC-Regular".to_owned()
    } else if same_text(raw, "Microsoft JhengHei") {
        "MicrosoftJhengHei".to_owned()
    } else if same_text(raw, "Microsoft YaHei") {
        "MicrosoftYaHei".to_owned()
    } else if same_text(raw, "SimSun") {
        "SimSun".to_owned()
    } else if same_text(raw, "SimSun Bold") {
        "SimSun-Bold".to_owned()
    } else {
        sanitize_pdf_font_name(raw)
    }
}

/// Whether a path names a file of raw outlines: whether it ends in `.ttf`,
/// in upper or lower case.
pub open spec fn names_outline_file(path: Seq<char>) -> bool {
    let n = path.len() as int;
    &&& n >= 4
    &&& path[n - 4] == '.'
    &&& (path[n - 3] == 't' || path[n - 3] == 'T')
    &&& (path[n - 2] == 't' || path[n - 2] == 'T')
    &&& (path[n - 1] == 'f' || path[n - 1] == 'F')
}

/// Whether the Chinese font program can be embedded: its file holds raw
/// outlines and the program is at hand.
pub open spec fn is_embeddable(ctx: FontContext) -> bool {
    names_outline_file(ctx.chinese_font_path@) && 0 < ctx.chinese_font_data@.len() <= i64::MAX
}

/// A copy of some bytes.
pub fn copy_bytes(data: &Vec<u8>) -> (out: Vec<u8>)
    ensures
        out@ == data@,
{
    let mut out: Vec<u8> = Vec::new();
    let mut i: usize = 0;
    while i < data.len()
        invariant
            i <= data.len(),
            out@ == data@.take(i as int),
        decreases data.len() - i,
    {
        out.push(data[i]);
        i += 1;
        assert(data@.take(i as int) == data@.take(i - 1).push(data@[i - 1]));
    }
    assert(data@.take(data.len() as int) == data@);
    out
}

/// The stream that embeds a font program: it records the length of the
/// program as `Length1`.
pub open spec fn font_program(data: Seq<u8>) -> IndirectView {
    IndirectView::Stream {
        dict: seq![entry("Length1"@, ObjectView::Integer(data.len() as int))],
        content: data,
    }
}

/// The stream that embeds the Chinese font program, where it can be
/// embedded.
pub fn create_embeddable_chinese_font_stream(ctx: &FontContext) -> (stream: Option<
    IndirectObject,
>)
    ensures
        match stream {
            Some(object) => is_embeddable(*ctx) && object@ == font_program(
                ctx.chinese_font_data@,
            ),
            None => !is_embeddable(*ctx),
        },
{
    let path = string_to_chars(ctx.chinese_font_path.as_str());
    let n = path.len();
    if n < 4 {
        return None;
    }
    if !(path[n - 4] == '.' && (path[n - 3] == 't' || path[n - 3] == 'T') && (path[n - 2] == 't'
        || path[n - 2] == 'T') && (path[n - 1] == 'f' || path[n - 1] == 'F')) {
        return None;
    }
    let length = ctx.chinese_font_data.len();
    if length == 0 || length as u64 > 0x7FFF_FFFF_FFFF_FFFF {
        return None;
    }
    let mut dict: Vec<Entry> = Vec::new();
    push_entry(&mut dict, "Length1", PdfObject::Integer(length as i64));
    let object = IndirectObject::Stream { dict, content: copy_bytes(&ctx.chinese_font_data) };
    assert(object@->Stream_dict =~= seq![
        entry("Length1"@, ObjectView::Integer(ctx.chinese_font_data@.len() as int)),
    ]);
    Some(object)
}

/// The glyph that the table gives to the character identifier `cid`: the
/// glyph of the character with that code, and glyph 0 for a code that is no
/// character or has no glyph.
pub open spec fn cid_glyph(glyphs: Map<u32, u16>, cid: int) -> int {
    if 0xD800 <= cid <= 0xDFFF {
        0
    } else if glyphs.contains_key(cid as u32) {
        glyphs[cid as u32] as int
    } else {
        0
    }
}

/// The table from the character identifiers of the Basic Multilingual Plane
/// to glyph indices: two bytes for each identifier, high byte first.
pub open spec fn cid_to_gid_bytes(glyphs: Map<u32, u16>) -> Seq<u8> {
    Seq::new(
        131072,
        |i: int|
            if i % 2 == 0 {
                (cid_glyph(glyphs, i / 2) / 256) as u8
            } else {
                (cid_glyph(glyphs, i / 2) % 256) as u8
            },
    )
}

/// The table from character identifiers to the given glyph indices.
pub fn cid_to_gid_table(glyphs: &HashMap<u32, u16>) -> (table: Vec<u8>)
    ensures
        table@ == cid_to_gid_bytes(glyphs@),
{
    let mut table: Vec<u8> = Vec::new();
    let mut cid: u32 = 0;
    while cid < 0x10000
        invariant
            cid <= 0x10000,
            table@.len() == 2 * cid,
            forall|i: int| 0 <= i < table@.len() ==> table@[i] == cid_to_gid_bytes(glyphs@)[i],
        decreases 0x10000 - cid,
    {
        let gid: u16 = if 0xD800 <= cid && cid <= 0xDFFF {
            0
        } else {
            match glyphs.get(&cid) {
                Some(g) => *g,
                None => 0,
            }
        };
        assert(gid == cid_glyph(glyphs@, cid as int));
        table.push((gid / 256) as u8);
        table.push((gid % 256) as u8);
        cid += 1;
    }
    assert(table@ =~= cid_to_gid_bytes(glyphs@));
    table
}

/// The stream that maps character identifiers to the glyph indices of the
/// Chinese face.
pub fn create_cid_to_gid_map_stream(ctx: &FontContext) -> (stream: IndirectObject)
    ensures
        stream@ == byte_stream(cid_to_gid_bytes(ctx.chinese_font.glyph_indices@)),
{
    make_byte_stream(cid_to_gid_table(&ctx.chinese_font.glyph_indices))
}

/// The text of the CMap that maps every two-byte code to the character
/// with that code.
pub open spec fn identity_cmap_text() -> Seq<char> {
    "/CIDInit /ProcSet findresource begin\n12 dict begin\nbegincmap\n/CIDSystemInfo\n<< /Registry (Adobe)\n/Ordering (UCS)\n/Supplement 0\n>> def\n/CMapName /Adobe-Identity-UCS def\n/CMapType 2 def\n1 begincodespacerange\n<0000> <FFFF>\nendcodespacerange\n1 beginbfrange\n<0000> <FFFF> <0000>\nendbfrange\nendcmap\nCMapName currentdict /CMap defineresource pop\nend\nend"@
}

/// The stream that tells which character each code stands for.
pub fn create_identity_tounicode_cmap_stream() -> (stream: IndirectObject)
    ensures
        stream@ == byte_stream(encode_utf8(identity_cmap_text())),
{
    let text: &str =
        "/CIDInit /ProcSet findresource begin\n12 dict begin\nbegincmap\n/CIDSystemInfo\n<< /Registry (Adobe)\n/Ordering (UCS)\n/Supplement 0\n>> def\n/CMapName /Adobe-Identity-UCS def\n/CMapType 2 def\n1 begincodespacerange\n<0000> <FFFF>\nendcodespacerange\n1 beginbfrange\n<0000> <FFFF> <0000>\nendbfrange\nendcmap\nCMapName currentdict /CMap defineresource pop\nend\nend";
    make_byte_stream(text.as_bytes_vec())
}

/// The descriptor of the composite font: its name, the fixed metrics of a
/// CJK face in thousandths of an em, and the embedded font program where
/// there is one.
pub open spec fn font_descriptor(font_name: Seq<char>, font_file: Option<ObjectId>) -> IndirectView {
    let fixed = seq![
        entry("Type"@, ObjectView::Name("FontDescriptor"@)),
        entry("FontName"@, ObjectView::Name(font_name)),
        entry("Flags"@, ObjectView::Integer(4)),
        entry(
            "FontBBox"@,
            ObjectView::Array(
                seq![
                    ObjectView::Integer(0),
                    ObjectView::Integer(-300),
                    ObjectView::Integer(1000),
                    ObjectView::Integer(1000),
                ],
            ),
        ),
        entry("ItalicAngle"@, ObjectView::Integer(0)),
        entry("Ascent"@, ObjectView::Integer(880)),
        entry("Descent"@, ObjectView::Integer(-120)),
        entry("CapHeight"@, ObjectView::Integer(700)),
        entry("StemV"@, ObjectView::Integer(80)),
    ];
    dictionary_object(
        match font_file {
            Some(id) => fixed.push(entry("FontFile2"@, ObjectView::Reference(id))),
            None => fixed,
        },
    )
}

/// The CIDFontType2 descendant of the composite font. Character
/// identifiers are glyph indices unless a table maps them.
pub open spec fn cid_font(
    font_name: Seq<char>,
    descriptor: ObjectId,
    table: Option<ObjectId>,
) -> IndirectView {
    dictionary_object(
        seq![
            entry("Type"@, ObjectView::Name("Font"@)),
            entry("Subtype"@, ObjectView::Name("CIDFontType2"@)),
            entry("BaseFont"@, ObjectView::Name(font_name)),
            entry(
                "CIDSystemInfo"@,
                ObjectView::Dictionary(
                    seq![
                        entry("Registry"@, literal("Adobe"@)),
                        entry("Ordering"@, literal("Identity"@)),
                        entry("Supplement"@, ObjectView::Integer(0)),
                    ],
                ),
            ),
            entry("FontDescriptor"@, ObjectView::Reference(descriptor)),
            entry("DW"@, ObjectView::Integer(1000)),
            entry(
                "CIDToGIDMap"@,
                match table {
                    Some(id) => ObjectView::Reference(id),
                    None => ObjectView::Name("Identity"@),
                },
            ),
        ],
    )
}

/// The Type0 composite font: two-byte codes are character identifiers.
pub open spec fn composite_font(
    font_name: Seq<char>,
    descendant: ObjectId,
    to_unicode: ObjectId,
) -> IndirectView {
    dictionary_object(
        seq![
            entry("Type"@, ObjectView::Name("Font"@)),
            entry("Subtype"@, ObjectView::Name("Type0"@)),
            entry("BaseFont"@, ObjectView::Name(font_name)),
            entry("Encoding"@, ObjectView::Name("Identity-H"@)),
            entry("DescendantFonts"@, ObjectView::Array(seq![ObjectView::Reference(descendant)])),
            entry("ToUnicode"@, ObjectView::Reference(to_unicode)),
        ],
    )
}

/// The simple Type1 font for Latin text.
pub open spec fn simple_font() -> IndirectView {
    dictionary_object(
        seq![
            entry("Type"@, ObjectView::Name("Font"@)),
            entry("Subtype"@, ObjectView::Name("Type1"@)),
            entry("BaseFont"@, ObjectView::Name("Times-Roman"@)),
            entry("Encoding"@, ObjectView::Name("WinAnsiEncoding"@)),
        ],
    )
}

/// The descriptor of the composite font.
pub fn make_font_descriptor(font_name: &str, font_file: Option<ObjectId>) -> (object:
    IndirectObject)
    ensures
        object@ == font_descriptor(font_name@, font_file),
{
    let mut bbox: Vec<PdfObject> = Vec::new();
    bbox.push(PdfObject::Integer(0));
    bbox.push(PdfObject::Integer(-300));
    bbox.push(PdfObject::Integer(1000));
    bbox.push(PdfObject::Integer(1000));
    assert(object_views(bbox@) =~= seq![
        ObjectView::Integer(0),
        ObjectView::Integer(-300),
        ObjectView::Integer(1000),
        ObjectView::Integer(1000),
    ]);
    let mut dict: Vec<Entry> = Vec::new();
    push_entry(&mut dict, "Type", name("FontDescriptor"));
    push_entry(&mut dict, "FontName", name(font_name));
    push_entry(&mut dict, "Flags", PdfObject::Integer(4));
    push_entry(&mut dict, "FontBBox", array(bbox));
    push_entry(&mut dict, "ItalicAngle", PdfObject::Integer(0));
    push_entry(&mut dict, "Ascent", PdfObject::Integer(880));
    push_entry(&mut dict, "Descent", PdfObject::Integer(-120));
    push_entry(&mut dict, "CapHeight", PdfObject::Integer(700));
    push_entry(&mut dict, "StemV", PdfObject::Integer(80));
    match font_file {
        Some(id) => {
            push_entry(&mut dict, "FontFile2", PdfObject::Reference(id));
        },
        None => {},
    }
    assert(entry_views(dict@) =~= font_descriptor(font_name@, font_file)->Value_0->Dictionary_0);
    make_dictionary_object(dict)
}

/// The CIDFontType2 descendant of the composite font.
pub fn make_cid_font(font_name: &str, descriptor: ObjectId, table: Option<ObjectId>) -> (object:
    IndirectObject)
    ensures
        object@ == cid_font(font_name@, descriptor, table),
{
    let mut system: Vec<Entry> = Vec::new();
    push_entry(&mut system, "Registry", string_literal("Adobe"));
    push_entry(&mut system, "Ordering", string_literal("Identity"));
    push_entry(&mut system, "Supplement", PdfObject::Integer(0));
    assert(entry_views(system@) =~= seq![
        entry("Registry"@, literal("Adobe"@)),
        entry("Ordering"@, literal("Identity"@)),
        entry("Supplement"@, ObjectView::Integer(0)),
    ]);
    let mut dict: Vec<Entry> = Vec::new();
    push_entry(&mut dict, "Type", name("Font"));
    push_entry(&mut dict, "Subtype", name("CIDFontType2"));
    push_entry(&mut dict, "BaseFont", name(font_name));
    push_entry(&mut dict, "CIDSystemInfo", dictionary(system));
    push_entry(&mut dict, "FontDescriptor", PdfObject::Reference(descriptor));
    push_entry(&mut dict, "DW", PdfObject::Integer(1000));
    match table {
        Some(id) => {
            push_entry(&mut dict, "CIDToGIDMap", PdfObject::Reference(id));
        },
        None => {
            push_entry(&mut dict, "CIDToGIDMap", name("Identity"));
        },
    }
    assert(entry_views(dict@) =~= cid_font(font_name@, descriptor, table)->Value_0->Dictionary_0);
    make_dictionary_object(dict)
}

/// The Type0 composite font.
pub fn make_composite_font(font_name: &str, descendant: ObjectId, to_unicode: ObjectId) -> (object:
    IndirectObject)
    ensures
        object@ == composite_font(font_name@, descendant, to_unicode),
{
    let mut fonts: Vec<PdfObject> = Vec::new();
    fonts.push(PdfObject::Reference(descendant));
    assert(object_views(fonts@) =~= seq![ObjectView::Reference(descendant)]);
    let mut dict: Vec<Entry> = Vec::new();
    push_entry(&mut dict, "Type", name("Font"));
    push_entry(&mut dict, "Subtype", name("Type0"));
    push_entry(&mut dict, "BaseFont", name(font_name));
    push_entry(&mut dict, "Encoding", name("Identity-H"));
    push_entry(&mut dict, "DescendantFonts", array(fonts));
    push_entry(&mut dict, "ToUnicode", PdfObject::Reference(to_unicode));
    assert(entry_views(dict@) =~= composite_font(
        font_name@,
        descendant,
        to_unicode,
    )->Value_0->Dictionary_0);
    make_dictionary_object(dict)
}

/// The simple Type1 font for Latin text.
pub fn make_simple_font() -> (object: IndirectObject)
    ensures
        object@ == simple_font(),
{
    let mut dict: Vec<Entry> = Vec::new();
    push_entry(&mut dict, "Type", name("Font"));
    push_entry(&mut dict, "Subtype", name("Type1"));
    push_entry(&mut dict, "BaseFont", name("Times-Roman"));
    push_entry(&mut dict, "Encoding", name("WinAnsiEncoding"));
    assert(entry_views(dict@) =~= simple_font()->Value_0->Dictionary_0);
    make_dictionary_object(dict)
}

/// The number of objects that the Chinese font takes.
pub open spec fn chinese_font_objects(ctx: FontContext) -> int {
    if is_embeddable(ctx) {
        6
    } else {
        4
    }
}

/// The document with the composite font for Chinese text added.
///
/// The font program is embedded where it can be, and then a table maps
/// character identifiers to its glyphs; otherwise the identifiers are the
/// glyph indices. The Type0 font is the last object added.
pub open spec fn with_chinese_font(doc: DocumentView, ctx: FontContext) -> DocumentView {
    let font_name = pdf_font_name(ctx.chinese_font_name@);
    let embed = is_embeddable(ctx);
    let d1 = if embed {
        doc.add(font_program(ctx.chinese_font_data@))
    } else {
        doc
    };
    let d2 = d1.add(
        font_descriptor(
            font_name,
            if embed {
                Some(doc.next_id() as u32)
            } else {
                None
            },
        ),
    );
    let d3 = if embed {
        d2.add(byte_stream(cid_to_gid_bytes(ctx.chinese_font.glyph_indices@)))
    } else {
        d2
    };
    let d4 = d3.add(
        cid_font(
            font_name,
            d1.next_id() as u32,
            if embed {
                Some(d2.next_id() as u32)
            } else {
                None
            },
        ),
    );
    let d5 = d4.add(byte_stream(encode_utf8(identity_cmap_text())));
    d5.add(composite_font(font_name, d3.next_id() as u32, d4.next_id() as u32))
}

/// The document with the simple font for Latin text added.
pub open spec fn with_english_font(doc: DocumentView) -> DocumentView {
    doc.add(simple_font())
}

/// The number of objects that the font named `name` takes.
pub open spec fn font_objects_needed(ctx: FontContext, name: Seq<char>) -> int {
    if name == "chinese"@ {
        chinese_font_objects(ctx)
    } else {
        1
    }
}

/// The document with the font named `name` added: the composite font for
/// the name `chinese`, the simple font for any other.
pub open spec fn with_font(doc: DocumentView, ctx: FontContext, name: Seq<char>) -> DocumentView {
    if name == "chinese"@ {
        with_chinese_font(doc, ctx)
    } else {
        with_english_font(doc)
    }
}

} // verus!
