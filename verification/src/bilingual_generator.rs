//! Bilingual documents: placing paragraphs on pages and assembling the
//! document.

use crate::chars::{is_blank, str_is_blank};
use crate::content::{build_page_content, lifted_all, page_operations};
use crate::document::{
    array, dictionary, dictionary_object, DocumentView, Entry, entry, entry_views, EntryView,
    IndirectObject, IndirectView, lemma_with_page_keeps_count, literal, make_dictionary_object, MAX_OBJECTS, name, object_views,
    ObjectId, ObjectView, OperationView, PdfDocument, PdfError, PdfObject, push_entry, reserved,
    same_text, string_literal, with_entry,
};
use crate::font_objects::{
    chinese_font_objects, chinese_pdf_font_name, create_cid_to_gid_map_stream,
    create_embeddable_chinese_font_stream, create_identity_tounicode_cmap_stream,
    font_objects_needed, make_cid_font, make_composite_font, make_font_descriptor,
    make_simple_font, with_chinese_font, with_english_font, with_font,
};
use crate::fonts::FontContext;
use crate::hocr_layer::{
    create_hocr_generator, document_html, hocr_page_views, HocrGenerator, HocrPage,
};
use crate::lines::{FormattedParagraph, MAX_HEIGHT, MAX_ORIGIN, paragraph_views, ParagraphView};
use crate::typography::{create_layout_engine, layout_result, LayoutError, TextLayoutEngine};
use crate::units::{div_trunc, lemma_trunc_div_bounds, MAX_LENGTH, scale, scale_i64, trunc_div};
use vstd::prelude::*;

verus! {

/// A font of the document: its resource name and its object.
#[derive(Clone, Debug, PartialEq, Eq)]
pub struct FontResource {
    pub name: String,
    pub font: ObjectId,
}

/// What a font resource is, as a mathematical value.
pub struct FontResourceView {
    pub name: Seq<char>,
    pub font: ObjectId,
}

impl View for FontResource {
    type V = FontResourceView;

    open spec fn view(&self) -> FontResourceView {
        FontResourceView { name: self.name@, font: self.font }
    }
}

/// The values of a sequence of font resources.
pub open spec fn resource_views(rs: Seq<FontResource>) -> Seq<FontResourceView> {
    rs.map_values(|r: FontResource| r@)
}

/// The position of the first resource named `name` among the first `upto`,
/// or `upto` where there is none.
pub open spec fn resource_index(rs: Seq<FontResourceView>, name: Seq<char>, upto: int) -> int
    decreases upto,
{
    if upto <= 0 {
        0
    } else {
        let before = resource_index(rs, name, upto - 1);
        if before < upto - 1 {
            before
        } else if rs[upto - 1].name == name {
            upto - 1
        } else {
            upto
        }
    }
}

/// The resources with the font `font` under the name `name`: in place of
/// the resource of that name, or at the end where there is none.
pub open spec fn with_resource(
    rs: Seq<FontResourceView>,
    name: Seq<char>,
    font: ObjectId,
) -> Seq<FontResourceView> {
    let k = resource_index(rs, name, rs.len() as int);
    if k < rs.len() {
        rs.update(k, FontResourceView { name, font })
    } else {
        rs.push(FontResourceView { name, font })
    }
}

/// Records the font `font` under the name `name`.
pub fn set_resource(resources: &mut Vec<FontResource>, name: &str, font: ObjectId)
    ensures
        resource_views(final(resources)@) == with_resource(
            resource_views(old(resources)@),
            name@,
            font,
        ),
{
    let ghost rs = resource_views(resources@);
    let n = resources.len();
    let mut i: usize = 0;
    while i < n
        invariant
            n == resources.len(),
            rs == resource_views(resources@),
            *resources == *old(resources),
            i <= n,
            resource_index(rs, name@, i as int) == i,
        decreases n - i,
    {
        assert(rs[i as int] == resources@[i as int]@);
        if same_text(resources[i].name.as_str(), name) {
            resources[i] = FontResource { name: name.to_owned(), font };
            assert(resource_index(rs, name@, i + 1) == i);
            assert(resource_index(rs, name@, n as int) == i) by {
                lemma_resource_index_stays(rs, name@, i + 1, n as int);
            }
            assert(resource_views(resources@) =~= rs.update(
                i as int,
                FontResourceView { name: name@, font },
            ));
            return;
        }
        i += 1;
    }
    resources.push(FontResource { name: name.to_owned(), font });
    assert(resource_views(resources@) =~= rs.push(FontResourceView { name: name@, font }));
}

/// Once a resource of the name is found, looking further finds the same.
pub proof fn lemma_resource_index_stays(
    rs: Seq<FontResourceView>,
    name: Seq<char>,
    from: int,
    upto: int,
)
    requires
        0 < from <= upto,
        resource_index(rs, name, from) < from,
    ensures
        resource_index(rs, name, upto) == resource_index(rs, name, from),
    decreases upto - from,
{
    if from < upto {
        lemma_resource_index_stays(rs, name, from, upto - 1);
    }
}

/// The entries that name each font by its resource name.
pub open spec fn font_entries(fonts: Seq<FontResourceView>) -> Seq<EntryView> {
    fonts.map_values(|f: FontResourceView| entry(f.name, ObjectView::Reference(f.font)))
}

/// The resources of a page: its fonts by resource name.
pub open spec fn resources(fonts: Seq<FontResourceView>) -> ObjectView {
    ObjectView::Dictionary(seq![entry("Font"@, ObjectView::Dictionary(font_entries(fonts)))])
}

/// A page of the page tree `tree`: its media box is the whole page, with
/// the origin in a corner.
pub open spec fn page_object(
    tree: ObjectId,
    fonts: Seq<FontResourceView>,
    width: int,
    height: int,
    contents: ObjectId,
) -> IndirectView {
    dictionary_object(
        seq![
            entry("Type"@, ObjectView::Name("Page"@)),
            entry("Parent"@, ObjectView::Reference(tree)),
            entry("Resources"@, resources(fonts)),
            entry(
                "MediaBox"@,
                ObjectView::Array(
                    seq![
                        ObjectView::Integer(0),
                        ObjectView::Integer(0),
                        ObjectView::Real(width),
                        ObjectView::Real(height),
                    ],
                ),
            ),
            entry("Contents"@, ObjectView::Reference(contents)),
        ],
    )
}

/// A page tree without pages.
pub open spec fn empty_page_tree() -> IndirectView {
    dictionary_object(
        seq![
            entry("Type"@, ObjectView::Name("Pages"@)),
            entry("Kids"@, ObjectView::Array(Seq::empty())),
            entry("Count"@, ObjectView::Integer(0)),
        ],
    )
}

/// The information dictionary.
pub open spec fn information() -> IndirectView {
    dictionary_object(
        seq![
            entry("Producer"@, literal("CBETA Bilingual PDF Creator"@)),
            entry("Creator"@, literal("CBETA Project"@)),
        ],
    )
}

/// The catalog of the page tree numbered `pages`.
pub open spec fn catalog(pages: ObjectId) -> IndirectView {
    dictionary_object(
        seq![
            entry("Type"@, ObjectView::Name("Catalog"@)),
            entry("Pages"@, ObjectView::Reference(pages)),
        ],
    )
}

/// The content stream of some instructions.
pub open spec fn content_stream(operations: Seq<OperationView>) -> IndirectView {
    IndirectView::Content { operations }
}

/// How far text is kept from every edge of the content area.
pub const SAFE_INSET: i64 = 10_000;

/// The least width and the least height of the area that text is laid out in.
pub const MIN_EXTENT: i64 = 120_000;

/// The larger of two lengths.
pub open spec fn larger(a: int, b: int) -> int {
    if a < b {
        b
    } else {
        a
    }
}

/// The area that text is laid out in: the page without its margins, drawn
/// in by the inset on every edge, and no smaller than the least extent.
/// Left, top, width, height.
pub open spec fn safe_area(ctx: FontContext) -> (int, int, int, int) {
    (
        ctx.margin + SAFE_INSET,
        ctx.margin + SAFE_INSET,
        larger(ctx.page_width - 2 * ctx.margin - 2 * SAFE_INSET, MIN_EXTENT as int),
        larger(ctx.page_height - 2 * ctx.margin - 2 * SAFE_INSET, MIN_EXTENT as int),
    )
}

/// The paragraphs of a page moved together so that the first of them starts
/// at `top`.
pub open spec fn rehomed(paragraphs: Seq<ParagraphView>, top: int) -> Seq<ParagraphView> {
    if paragraphs.len() == 0 {
        paragraphs
    } else {
        lifted_all(paragraphs, paragraphs[0].y - top)
    }
}

/// The document with a page that shows `paragraphs`, or why it cannot be
/// added.
///
/// The paragraphs are moved together so that the first of them starts at
/// the top of the area that text is laid out in. The page takes the next
/// object number and its content stream the one after; the page goes to the
/// end of the page tree numbered `tree`.
pub open spec fn with_single_page(
    doc: DocumentView,
    ctx: FontContext,
    fonts: Seq<FontResourceView>,
    tree: ObjectId,
    paragraphs: Seq<ParagraphView>,
) -> Result<DocumentView, PdfError> {
    if doc.objects.len() + 2 > MAX_OBJECTS || !doc.can_take_page(tree) {
        Err(PdfError::Format)
    } else {
        let page = doc.next_id() as u32;
        Ok(
            doc.add(reserved()).add(
                content_stream(
                    page_operations(
                        ctx,
                        rehomed(paragraphs, safe_area(ctx).1),
                        paragraphs.len() as int,
                    ),
                ),
            ).put(
                page,
                page_object(
                    tree,
                    fonts,
                    ctx.page_width as int,
                    ctx.page_height as int,
                    (page + 1) as u32,
                ),
            ).with_page(tree, page),
        )
    }
}

/// Whether the object numbered `tree` is a page tree whose recorded number
/// of pages is the length of its list of pages.
pub open spec fn tree_consistent(doc: DocumentView, tree: ObjectId) -> bool {
    doc.is_page_tree(tree) && doc.count(tree) == Some(
        ObjectView::Integer(doc.kids(tree).len() as int),
    )
}

/// A page that is added to the document goes to the end of the page tree,
/// and the tree then records the number of its pages.
pub proof fn lemma_single_page_consistent(
    doc: DocumentView,
    ctx: FontContext,
    fonts: Seq<FontResourceView>,
    tree: ObjectId,
    paragraphs: Seq<ParagraphView>,
)
    requires
        with_single_page(doc, ctx, fonts, tree, paragraphs) is Ok,
    ensures
        tree_consistent(with_single_page(doc, ctx, fonts, tree, paragraphs)->Ok_0, tree),
        with_single_page(doc, ctx, fonts, tree, paragraphs)->Ok_0.kids(tree) == doc.kids(
            tree,
        ).push(ObjectView::Reference(doc.next_id() as u32)),
{
    let page = doc.next_id() as u32;
    let before = doc.add(reserved()).add(
        content_stream(
            page_operations(ctx, rehomed(paragraphs, safe_area(ctx).1), paragraphs.len() as int),
        ),
    ).put(
        page,
        page_object(tree, fonts, ctx.page_width as int, ctx.page_height as int, (page + 1) as u32),
    );
    assert(before.objects[tree - 1] == doc.objects[tree - 1]);
    lemma_with_page_keeps_count(before, tree, page);
}

/// The document with the fonts, a page tree without pages, the
/// information dictionary and the catalog added, and the trailer naming the
/// last two.
pub open spec fn initialized_document(doc: DocumentView, ctx: FontContext) -> DocumentView {
    let d2 = with_english_font(with_chinese_font(doc, ctx));
    let d3 = d2.add(empty_page_tree());
    let d4 = d3.add(information());
    let d5 = d4.add(catalog(d2.next_id() as u32));
    DocumentView {
        trailer: with_entry(
            with_entry(doc.trailer, "Root"@, ObjectView::Reference(d4.next_id() as u32)),
            "Info"@,
            ObjectView::Reference(d3.next_id() as u32),
        ),
        ..d5
    }
}

/// Assembles bilingual documents.
pub struct BilingualPdfGenerator {
    /// The composer, which holds the font context.
    pub layout_engine: TextLayoutEngine,
    pub hocr_generator: HocrGenerator,
    /// The document under construction.
    pub document: PdfDocument,
    /// The fonts of the document by resource name.
    pub font_objects: Vec<FontResource>,
    /// The page tree; zero until the document is initialized.
    pub pages_id: ObjectId,
}

impl BilingualPdfGenerator {
    /// The font context of the generator.
    pub open spec fn ctx(&self) -> FontContext {
        self.layout_engine.font_context
    }

    /// The fonts of the document, as mathematical values.
    pub open spec fn fonts(&self) -> Seq<FontResourceView> {
        resource_views(self.font_objects@)
    }

    /// A generator with an empty document.
    pub fn new(font_context: FontContext) -> (generator: BilingualPdfGenerator)
        ensures
            generator.ctx() == font_context,
            generator.document@ == DocumentView::empty(),
            generator.fonts() == Seq::<FontResourceView>::empty(),
            generator.pages_id == 0,
    {
        let generator = BilingualPdfGenerator {
            layout_engine: create_layout_engine(font_context),
            hocr_generator: create_hocr_generator(),
            document: PdfDocument::new(),
            font_objects: Vec::new(),
            pages_id: 0,
        };
        assert(generator.fonts() =~= Seq::<FontResourceView>::empty());
        generator
    }

    /// The area that text is laid out in: left, top, width, height.
    pub fn safe_content_area(&self) -> (area: (i64, i64, i64, i64))
        requires
            self.ctx().valid(),
        ensures
            (area.0 as int, area.1 as int, area.2 as int, area.3 as int) == safe_area(self.ctx()),
            0 < area.0 <= MAX_LENGTH + SAFE_INSET,
            MIN_EXTENT <= area.2 <= MAX_LENGTH,
            MIN_EXTENT <= area.3 <= MAX_LENGTH,
    {
        let (x, y, w, h) = self.layout_engine.font_context.content_area();
        let safe_w: i64 = if w - 2 * SAFE_INSET < MIN_EXTENT {
            MIN_EXTENT
        } else {
            w - 2 * SAFE_INSET
        };
        let safe_h: i64 = if h - 2 * SAFE_INSET < MIN_EXTENT {
            MIN_EXTENT
        } else {
            h - 2 * SAFE_INSET
        };
        (x + SAFE_INSET, y + SAFE_INSET, safe_w, safe_h)
    }

    /// Adds the font named `name` to the document and records it under that
    /// name: the composite font for the name `chinese`, the simple font for
    /// any other. Returns the font's object.
    pub fn add_font_to_document(&mut self, name: &str) -> (result: Result<ObjectId, PdfError>)
        ensures
            final(self).layout_engine == old(self).layout_engine,
            final(self).hocr_generator == old(self).hocr_generator,
            final(self).pages_id == old(self).pages_id,
            match result {
                Ok(id) => {
                    &&& old(self).document@.objects.len() + font_objects_needed(
                        old(self).ctx(),
                        name@,
                    ) <= MAX_OBJECTS
                    &&& final(self).document@ == with_font(
                        old(self).document@,
                        old(self).ctx(),
                        name@,
                    )
                    &&& id == final(self).document@.objects.len()
                    &&& final(self).fonts() == with_resource(old(self).fonts(), name@, id)
                },
                Err(e) => {
                    &&& e == PdfError::Format
                    &&& old(self).document@.objects.len() + font_objects_needed(
                        old(self).ctx(),
                        name@,
                    ) > MAX_OBJECTS
                    &&& final(self).document == old(self).document
                    &&& final(self).font_objects == old(self).font_objects
                },
            },
    {
        if same_text(name, "chinese") {
            let base_font_name = chinese_pdf_font_name(&self.layout_engine.font_context);
            let program = create_embeddable_chinese_font_stream(&self.layout_engine.font_context);
            let needed: usize = if program.is_some() {
                6
            } else {
                4
            };
            if self.document.objects.len() > MAX_OBJECTS - needed {
                return Err(PdfError::Format);
            }
            let mut font_file: Option<ObjectId> = None;
            match program {
                Some(object) => {
                    match self.document.add_object(object) {
                        Ok(id) => {
                            font_file = Some(id);
                        },
                        Err(e) => {
                            return Err(e);
                        },
                    }
                },
                None => {},
            }
            let descriptor_id = match self.document.add_object(
                make_font_descriptor(base_font_name.as_str(), font_file),
            ) {
                Ok(id) => id,
                Err(e) => {
                    return Err(e);
                },
            };
            let table: Option<ObjectId> = if font_file.is_some() {
                match self.document.add_object(
                    create_cid_to_gid_map_stream(&self.layout_engine.font_context),
                ) {
                    Ok(id) => Some(id),
                    Err(e) => {
                        return Err(e);
                    },
                }
            } else {
                None
            };
            let cid_font_id = match self.document.add_object(
                make_cid_font(base_font_name.as_str(), descriptor_id, table),
            ) {
                Ok(id) => id,
                Err(e) => {
                    return Err(e);
                },
            };
            let to_unicode_id = match self.document.add_object(
                create_identity_tounicode_cmap_stream(),
            ) {
                Ok(id) => id,
                Err(e) => {
                    return Err(e);
                },
            };
            let font_id = match self.document.add_object(
                make_composite_font(base_font_name.as_str(), cid_font_id, to_unicode_id),
            ) {
                Ok(id) => id,
                Err(e) => {
                    return Err(e);
                },
            };
            set_resource(&mut self.font_objects, name, font_id);
            Ok(font_id)
        } else {
            match self.document.add_object(make_simple_font()) {
                Ok(font_id) => {
                    set_resource(&mut self.font_objects, name, font_id);
                    Ok(font_id)
                },
                Err(e) => Err(e),
            }
        }
    }

    /// The resources that every page names: the fonts of the document.
    pub fn create_resources_dict(&self) -> (object: PdfObject)
        ensures
            object@ == resources(self.fonts()),
    {
        let ghost fonts = self.fonts();
        let mut font_dict: Vec<Entry> = Vec::new();
        let mut i: usize = 0;
        assert(entry_views(font_dict@) =~= font_entries(fonts).take(0));
        while i < self.font_objects.len()
            invariant
                fonts == self.fonts(),
                i <= self.font_objects.len(),
                entry_views(font_dict@) == font_entries(fonts).take(i as int),
            decreases self.font_objects.len() - i,
        {
            assert(fonts[i as int] == self.font_objects@[i as int]@);
            push_entry(
                &mut font_dict,
                self.font_objects[i].name.as_str(),
                PdfObject::Reference(self.font_objects[i].font),
            );
            assert(font_entries(fonts).take(i + 1) =~= font_entries(fonts).take(i as int).push(
                entry(fonts[i as int].name, ObjectView::Reference(fonts[i as int].font)),
            ));
            i += 1;
        }
        assert(font_entries(fonts).take(self.font_objects.len() as int) =~= font_entries(fonts));
        let mut dict: Vec<Entry> = Vec::new();
        push_entry(&mut dict, "Font", dictionary(font_dict));
        assert(entry_views(dict@) =~= seq![
            entry("Font"@, ObjectView::Dictionary(font_entries(fonts))),
        ]);
        dictionary(dict)
    }

    /// Adds the fonts, the page tree, the information dictionary and the
    /// catalog to the document.
    pub fn initialize_document(&mut self) -> (result: Result<(), PdfError>)
        ensures
            final(self).layout_engine == old(self).layout_engine,
            final(self).hocr_generator == old(self).hocr_generator,
            match result {
                Ok(_) => {
                    &&& old(self).document@.objects.len() + chinese_font_objects(old(self).ctx())
                        + 4 <= MAX_OBJECTS
                    &&& final(self).document@ == initialized_document(
                        old(self).document@,
                        old(self).ctx(),
                    )
                    &&& final(self).pages_id == initialized_tree(old(self).document@, old(self).ctx())
                    &&& final(self).fonts() == initialized_fonts(
                        old(self).document@,
                        old(self).ctx(),
                        old(self).fonts(),
                    )
                },
                Err(e) => {
                    &&& e == PdfError::Format
                    &&& old(self).document@.objects.len() + chinese_font_objects(old(self).ctx())
                        + 4 > MAX_OBJECTS
                    &&& final(self).document == old(self).document
                    &&& final(self).font_objects == old(self).font_objects
                    &&& final(self).pages_id == old(self).pages_id
                },
            },
    {
        proof {
            reveal_strlit("chinese");
            reveal_strlit("english");
            assert("english"@ != "chinese"@) by {
                assert("english"@[0] == 'e');
                assert("chinese"@[0] == 'c');
            }
        }
        let program = create_embeddable_chinese_font_stream(&self.layout_engine.font_context);
        let needed: usize = if program.is_some() {
            10
        } else {
            8
        };
        if self.document.objects.len() > MAX_OBJECTS - needed {
            return Err(PdfError::Format);
        }
        match self.add_font_to_document("chinese") {
            Ok(_) => {},
            Err(e) => {
                return Err(e);
            },
        }
        match self.add_font_to_document("english") {
            Ok(_) => {},
            Err(e) => {
                return Err(e);
            },
        }
        let mut pages: Vec<Entry> = Vec::new();
        push_entry(&mut pages, "Type", name("Pages"));
        push_entry(&mut pages, "Kids", array(Vec::new()));
        push_entry(&mut pages, "Count", PdfObject::Integer(0));
        proof {
            assert(object_views(Seq::<PdfObject>::empty()) =~= Seq::<ObjectView>::empty());
            assert(entry_views(pages@) =~= empty_page_tree()->Value_0->Dictionary_0);
        }
        let pages_id = match self.document.add_object(make_dictionary_object(pages)) {
            Ok(id) => id,
            Err(e) => {
                return Err(e);
            },
        };
        let mut info: Vec<Entry> = Vec::new();
        push_entry(&mut info, "Producer", string_literal("CBETA Bilingual PDF Creator"));
        push_entry(&mut info, "Creator", string_literal("CBETA Project"));
        assert(entry_views(info@) =~= information()->Value_0->Dictionary_0);
        let info_id = match self.document.add_object(make_dictionary_object(info)) {
            Ok(id) => id,
            Err(e) => {
                return Err(e);
            },
        };
        let mut root: Vec<Entry> = Vec::new();
        push_entry(&mut root, "Type", name("Catalog"));
        push_entry(&mut root, "Pages", PdfObject::Reference(pages_id));
        assert(entry_views(root@) =~= catalog(pages_id)->Value_0->Dictionary_0);
        let catalog_id = match self.document.add_object(make_dictionary_object(root)) {
            Ok(id) => id,
            Err(e) => {
                return Err(e);
            },
        };
        self.document.set_trailer("Root", PdfObject::Reference(catalog_id));
        self.document.set_trailer("Info", PdfObject::Reference(info_id));
        self.pages_id = pages_id;
        Ok(())
    }

    /// Adds a page that shows the paragraphs from `start` up to `end` to the
    /// document.
    pub fn create_single_page(
        &mut self,
        paragraphs: &Vec<FormattedParagraph>,
        start: usize,
        end: usize,
    ) -> (result: Result<(), PdfError>)
        requires
            old(self).ctx().valid(),
            start <= end <= paragraphs@.len(),
            forall|i: int| start <= i < end ==> (#[trigger] paragraphs@[i])@.placed(),
        ensures
            final(self).layout_engine == old(self).layout_engine,
            final(self).hocr_generator == old(self).hocr_generator,
            final(self).font_objects == old(self).font_objects,
            final(self).pages_id == old(self).pages_id,
            match result {
                Ok(_) => with_single_page(
                    old(self).document@,
                    old(self).ctx(),
                    old(self).fonts(),
                    old(self).pages_id,
                    paragraph_views(paragraphs@).subrange(start as int, end as int),
                ) == Ok::<DocumentView, PdfError>(final(self).document@),
                Err(e) => with_single_page(
                    old(self).document@,
                    old(self).ctx(),
                    old(self).fonts(),
                    old(self).pages_id,
                    paragraph_views(paragraphs@).subrange(start as int, end as int),
                ) == Err::<DocumentView, PdfError>(e) && final(self).document == old(
                    self,
                ).document,
            },
    {
        if self.document.objects.len() > MAX_OBJECTS - 2 {
            return Err(PdfError::Format);
        }
        let tree = self.pages_id;
        if self.document.find_kids(tree).is_none() {
            return Err(PdfError::Format);
        }
        let ghost first = self.document@;
        let (_x, top, _w, _h) = self.safe_content_area();
        let lift: i64 = if start < end {
            paragraphs[start].y - top
        } else {
            0
        };
        proof {
            let range = paragraph_views(paragraphs@).subrange(start as int, end as int);
            if start < end {
                assert(range[0] == paragraphs@[start as int]@);
            } else {
                assert(lifted_all(range, 0) =~= range);
            }
        }
        let content = build_page_content(
            &self.layout_engine.font_context,
            paragraphs,
            start,
            end,
            lift,
        );
        let page_id = match self.document.new_object_id() {
            Ok(id) => id,
            Err(e) => {
                return Err(e);
            },
        };
        let content_id = match self.document.add_object(
            IndirectObject::Content { operations: content },
        ) {
            Ok(id) => id,
            Err(e) => {
                return Err(e);
            },
        };
        let mut media_box: Vec<PdfObject> = Vec::new();
        media_box.push(PdfObject::Integer(0));
        media_box.push(PdfObject::Integer(0));
        media_box.push(PdfObject::Real(self.layout_engine.font_context.page_width));
        media_box.push(PdfObject::Real(self.layout_engine.font_context.page_height));
        assert(object_views(media_box@) =~= seq![
            ObjectView::Integer(0),
            ObjectView::Integer(0),
            ObjectView::Real(self.ctx().page_width as int),
            ObjectView::Real(self.ctx().page_height as int),
        ]);
        let mut page: Vec<Entry> = Vec::new();
        push_entry(&mut page, "Type", name("Page"));
        push_entry(&mut page, "Parent", PdfObject::Reference(tree));
        push_entry(&mut page, "Resources", self.create_resources_dict());
        push_entry(&mut page, "MediaBox", array(media_box));
        push_entry(&mut page, "Contents", PdfObject::Reference(content_id));
        assert(entry_views(page@) =~= page_object(
            tree,
            self.fonts(),
            self.ctx().page_width as int,
            self.ctx().page_height as int,
            content_id,
        )->Value_0->Dictionary_0);
        match self.document.set_object(page_id, make_dictionary_object(page)) {
            Ok(_) => {},
            Err(e) => {
                return Err(e);
            },
        }
        proof {
            // the page tree stands before the two new objects and is as it was
            assert(self.document@.objects[tree - 1] == first.objects[tree - 1]);
        }
        match self.document.add_page_to_tree(tree, page_id) {
            Ok(_) => {},
            Err(e) => {
                return Err(e);
            },
        }
        Ok(())
    }

    /// Whether the object numbered `tree` is a page tree that can take
    /// another page.
    pub fn can_take_page(&self, tree: ObjectId) -> (r: bool)
        ensures
            r == self.document@.can_take_page(tree),
    {
        self.document.find_kids(tree).is_some()
    }

    /// The markup of the text layer for some pages.
    pub fn add_hocr_layer(&self, pages: &Vec<HocrPage>) -> (html: String)
        ensures
            html@ == document_html(hocr_page_views(pages@)),
    {
        self.hocr_generator.generate_hocr_html(pages)
    }

    /// The number of pages in the document's page tree.
    pub fn get_page_count(&self) -> (result: Result<usize, PdfError>)
        ensures
            match result {
                Ok(n) => if self.document@.is_page_tree(self.pages_id) {
                    n == self.document@.kids(self.pages_id).len()
                } else {
                    self.document@.has(self.pages_id) && !self.document@.is_dictionary(
                        self.pages_id,
                    ) && n == 0
                },
                Err(e) => e == PdfError::Format && !self.document@.is_page_tree(self.pages_id) && (
                self.document@.has(self.pages_id) ==> self.document@.is_dictionary(self.pages_id)),
            },
    {
        self.document.get_page_count(self.pages_id)
    }
}

/// The texts of some sections.
pub open spec fn section_views(sections: Seq<String>) -> Seq<Seq<char>> {
    sections.map_values(|s: String| s@)
}

/// The space after a paragraph of the alternating layout: half the height
/// of a Chinese line.
pub open spec fn paragraph_gap(ctx: FontContext) -> int {
    trunc_div(ctx.line_height(true), 2)
}

/// What laying out one text of a section gives: no paragraph for a blank
/// text, the paragraph for any other, or why it cannot be laid out.
pub open spec fn optional_paragraph(
    ctx: FontContext,
    text: Seq<char>,
    x: int,
    y: int,
    width: int,
    is_chinese: bool,
) -> Result<Option<ParagraphView>, LayoutError> {
    if is_blank(text) {
        Ok(None)
    } else {
        match layout_result(ctx, text, x, y, width, is_chinese) {
            Ok(p) => Ok(Some(p)),
            Err(e) => Err(e),
        }
    }
}

/// The value of a paragraph that may be missing.
pub open spec fn optional_view(p: Option<FormattedParagraph>) -> Option<ParagraphView> {
    match p {
        Some(v) => Some(v@),
        None => None,
    }
}

/// `acc` with the paragraph appended, if there is one.
pub open spec fn with_optional(
    acc: Seq<ParagraphView>,
    p: Option<ParagraphView>,
) -> Seq<ParagraphView> {
    match p {
        Some(v) => acc.push(v),
        None => acc,
    }
}

/// The height of the paragraph, or zero where there is none.
pub open spec fn optional_height(p: Option<ParagraphView>) -> int {
    match p {
        Some(v) => v.height,
        None => 0,
    }
}

/// Where the next paragraph starts after `p` placed at `y`: below it and
/// the gap, or at `y` itself where there is no paragraph.
pub open spec fn below(y: int, p: Option<ParagraphView>, gap: int) -> int {
    match p {
        Some(v) => y + v.height + gap,
        None => y,
    }
}

/// The paragraphs of the alternating layout from section `i` on, appended
/// to `acc`: `y` is where section `i` starts.
///
/// Each section gives its Chinese paragraph and then its English one, each
/// followed by the gap; between two sections lie two gaps more.
pub open spec fn alternating_from(
    ctx: FontContext,
    chinese: Seq<Seq<char>>,
    english: Seq<Seq<char>>,
    i: int,
    y: int,
    acc: Seq<ParagraphView>,
) -> Result<Seq<ParagraphView>, LayoutError>
    decreases chinese.len() - i,
{
    let area = safe_area(ctx);
    let gap = paragraph_gap(ctx);
    if i < 0 || i >= chinese.len() || i >= english.len() {
        Ok(acc)
    } else if y > MAX_ORIGIN {
        Err(LayoutError::InvalidGeometry)
    } else {
        match optional_paragraph(ctx, chinese[i], area.0, y, area.2, true) {
            Err(e) => Err(e),
            Ok(first) => {
                let y1 = below(y, first, gap);
                match optional_paragraph(ctx, english[i], area.0, y1, area.2, false) {
                    Err(e) => Err(e),
                    Ok(second) => {
                        let y2 = below(y1, second, gap);
                        alternating_from(
                            ctx,
                            chinese,
                            english,
                            i + 1,
                            if i < chinese.len() - 1 {
                                y2 + 2 * gap
                            } else {
                                y2
                            },
                            with_optional(with_optional(acc, first), second),
                        )
                    },
                }
            },
        }
    }
}

/// The paragraphs of the alternating layout of some sections.
pub open spec fn alternating_layout(
    ctx: FontContext,
    chinese: Seq<Seq<char>>,
    english: Seq<Seq<char>>,
) -> Result<Seq<ParagraphView>, LayoutError> {
    alternating_from(ctx, chinese, english, 0, safe_area(ctx).1, Seq::empty())
}

/// Whether paragraph `i` reaches below the area of a page whose first
/// paragraph is paragraph `start`: whether its bottom, measured from the top
/// of that first paragraph, lies further down than the area is high.
pub open spec fn reaches_below(ps: Seq<ParagraphView>, start: int, i: int, limit: int) -> bool {
    ps[i].y - ps[start].y + ps[i].height > limit
}

/// The document with the pages of the paragraphs from `i` on: `start` is
/// the first paragraph of the page being filled.
///
/// A paragraph that would reach below the area of a page that holds
/// something already closes that page and opens the next, where it stands
/// first. A paragraph higher than a page stands alone on its page.
pub open spec fn pages_from(
    doc: DocumentView,
    ctx: FontContext,
    fonts: Seq<FontResourceView>,
    tree: ObjectId,
    ps: Seq<ParagraphView>,
    limit: int,
    i: int,
    start: int,
) -> Result<DocumentView, PdfError>
    decreases ps.len() - i,
{
    if i < 0 || i >= ps.len() {
        if 0 <= start < ps.len() {
            with_single_page(doc, ctx, fonts, tree, ps.subrange(start, ps.len() as int))
        } else {
            Ok(doc)
        }
    } else if 0 <= start < i && reaches_below(ps, start, i, limit) {
        match with_single_page(doc, ctx, fonts, tree, ps.subrange(start, i)) {
            Err(e) => Err(e),
            Ok(d) => pages_from(d, ctx, fonts, tree, ps, limit, i + 1, i),
        }
    } else {
        pages_from(doc, ctx, fonts, tree, ps, limit, i + 1, start)
    }
}

/// The document as making the pages of the paragraphs from `i` on leaves
/// it: with every page, and where a page cannot be added, with the pages
/// before it.
pub open spec fn pages_reached(
    doc: DocumentView,
    ctx: FontContext,
    fonts: Seq<FontResourceView>,
    tree: ObjectId,
    ps: Seq<ParagraphView>,
    limit: int,
    i: int,
    start: int,
) -> DocumentView
    decreases ps.len() - i,
{
    if i < 0 || i >= ps.len() {
        if 0 <= start < ps.len() {
            match with_single_page(doc, ctx, fonts, tree, ps.subrange(start, ps.len() as int)) {
                Err(_) => doc,
                Ok(d) => d,
            }
        } else {
            doc
        }
    } else if 0 <= start < i && reaches_below(ps, start, i, limit) {
        match with_single_page(doc, ctx, fonts, tree, ps.subrange(start, i)) {
            Err(_) => doc,
            Ok(d) => pages_reached(d, ctx, fonts, tree, ps, limit, i + 1, i),
        }
    } else {
        pages_reached(doc, ctx, fonts, tree, ps, limit, i + 1, start)
    }
}

/// Pagination leaves the page tree recording the number of its pages.
pub proof fn lemma_pages_from_consistent(
    doc: DocumentView,
    ctx: FontContext,
    fonts: Seq<FontResourceView>,
    tree: ObjectId,
    ps: Seq<ParagraphView>,
    limit: int,
    i: int,
    start: int,
)
    requires
        tree_consistent(doc, tree),
        pages_from(doc, ctx, fonts, tree, ps, limit, i, start) is Ok,
    ensures
        tree_consistent(pages_from(doc, ctx, fonts, tree, ps, limit, i, start)->Ok_0, tree),
    decreases ps.len() - i,
{
    if i < 0 || i >= ps.len() {
        if 0 <= start < ps.len() {
            lemma_single_page_consistent(
                doc,
                ctx,
                fonts,
                tree,
                ps.subrange(start, ps.len() as int),
            );
        }
    } else if 0 <= start < i && reaches_below(ps, start, i, limit) {
        lemma_single_page_consistent(doc, ctx, fonts, tree, ps.subrange(start, i));
        let d = with_single_page(doc, ctx, fonts, tree, ps.subrange(start, i))->Ok_0;
        lemma_pages_from_consistent(d, ctx, fonts, tree, ps, limit, i + 1, i);
    } else {
        lemma_pages_from_consistent(doc, ctx, fonts, tree, ps, limit, i + 1, start);
    }
}

/// The space between the two columns of the side-by-side layout.
pub const COLUMN_GUTTER: i64 = 24_000;

/// The width of a column: half of what the gutter leaves of the area, and
/// no less than the least extent.
pub open spec fn column_width(ctx: FontContext) -> int {
    larger(trunc_div(safe_area(ctx).2 - COLUMN_GUTTER, 2), MIN_EXTENT as int)
}

/// The space below a row: the height of a Chinese line times the paragraph
/// spacing, the spacing taken as no less than a fifth, and no less than
/// four points.
pub open spec fn row_spacing(ctx: FontContext) -> int {
    larger(scale(ctx.line_height(true), larger(ctx.paragraph_spacing as int, 200), 1000), 4000)
}

/// A row of the side-by-side layout.
pub struct RowView {
    /// The Chinese paragraph, in the left column.
    pub left: Option<ParagraphView>,
    /// The English paragraph, in the right column.
    pub right: Option<ParagraphView>,
    /// The height of the row: that of its higher paragraph, and no less than
    /// a Chinese line.
    pub height: int,
}

/// The row of a section laid out with its top at `y`: the Chinese
/// paragraph at `left_x`, the English one at `right_x`, both `width` wide.
pub open spec fn laid_row(
    ctx: FontContext,
    chinese: Seq<char>,
    english: Seq<char>,
    left_x: int,
    right_x: int,
    y: int,
    width: int,
) -> Result<RowView, LayoutError> {
    match optional_paragraph(ctx, chinese, left_x, y, width, true) {
        Err(e) => Err(e),
        Ok(left) => match optional_paragraph(ctx, english, right_x, y, width, false) {
            Err(e) => Err(e),
            Ok(right) => Ok(
                RowView {
                    left,
                    right,
                    height: larger(
                        larger(optional_height(left), optional_height(right)),
                        ctx.line_height(true),
                    ),
                },
            ),
        },
    }
}

/// Where the right column starts.
pub open spec fn right_column(ctx: FontContext) -> int {
    safe_area(ctx).0 + column_width(ctx) + COLUMN_GUTTER
}

/// The document with the pages of the side-by-side layout from section `i`
/// on: `y` is where the row of section `i` starts, `acc` holds the
/// paragraphs laid out so far and `start` is the first of them on the page
/// being filled.
///
/// A row that does not fit above the bottom of the area on a page that
/// holds something already closes that page, and is laid out again at the
/// top of the next.
pub open spec fn side_by_side_from(
    doc: DocumentView,
    ctx: FontContext,
    fonts: Seq<FontResourceView>,
    tree: ObjectId,
    chinese: Seq<Seq<char>>,
    english: Seq<Seq<char>>,
    i: int,
    y: int,
    acc: Seq<ParagraphView>,
    start: int,
) -> Result<DocumentView, PdfError>
    decreases chinese.len() - i,
{
    let top = safe_area(ctx).1;
    let bottom = top + safe_area(ctx).3;
    if i < 0 || i >= chinese.len() || i >= english.len() {
        if 0 <= start < acc.len() {
            with_single_page(doc, ctx, fonts, tree, acc.subrange(start, acc.len() as int))
        } else {
            Ok(doc)
        }
    } else if y > MAX_ORIGIN {
        Err(PdfError::Layout(LayoutError::InvalidGeometry))
    } else {
        match laid_row(
            ctx,
            chinese[i],
            english[i],
            safe_area(ctx).0,
            right_column(ctx),
            y,
            column_width(ctx),
        ) {
            Err(e) => Err(PdfError::Layout(e)),
            Ok(row) => if y + row.height > bottom && 0 <= start < acc.len() {
                match with_single_page(
                    doc,
                    ctx,
                    fonts,
                    tree,
                    acc.subrange(start, acc.len() as int),
                ) {
                    Err(e) => Err(e),
                    Ok(d) => match laid_row(
                        ctx,
                        chinese[i],
                        english[i],
                        safe_area(ctx).0,
                        right_column(ctx),
                        top,
                        column_width(ctx),
                    ) {
                        Err(e) => Err(PdfError::Layout(e)),
                        Ok(again) => side_by_side_from(
                            d,
                            ctx,
                            fonts,
                            tree,
                            chinese,
                            english,
                            i + 1,
                            top + again.height + row_spacing(ctx),
                            with_optional(with_optional(acc, again.left), again.right),
                            acc.len() as int,
                        ),
                    },
                }
            } else {
                side_by_side_from(
                    doc,
                    ctx,
                    fonts,
                    tree,
                    chinese,
                    english,
                    i + 1,
                    y + row.height + row_spacing(ctx),
                    with_optional(with_optional(acc, row.left), row.right),
                    start,
                )
            },
        }
    }
}

/// The document as laying out the sections from `i` on side by side leaves
/// it: with every page, and where a row cannot be laid out or a page
/// cannot be added, with the pages before that.
pub open spec fn side_by_side_reached(
    doc: DocumentView,
    ctx: FontContext,
    fonts: Seq<FontResourceView>,
    tree: ObjectId,
    chinese: Seq<Seq<char>>,
    english: Seq<Seq<char>>,
    i: int,
    y: int,
    acc: Seq<ParagraphView>,
    start: int,
) -> DocumentView
    decreases chinese.len() - i,
{
    let top = safe_area(ctx).1;
    let bottom = top + safe_area(ctx).3;
    if i < 0 || i >= chinese.len() || i >= english.len() {
        if 0 <= start < acc.len() {
            match with_single_page(doc, ctx, fonts, tree, acc.subrange(start, acc.len() as int)) {
                Err(_) => doc,
                Ok(d) => d,
            }
        } else {
            doc
        }
    } else if y > MAX_ORIGIN {
        doc
    } else {
        match laid_row(
            ctx,
            chinese[i],
            english[i],
            safe_area(ctx).0,
            right_column(ctx),
            y,
            column_width(ctx),
        ) {
            Err(_) => doc,
            Ok(row) => if y + row.height > bottom && 0 <= start < acc.len() {
                match with_single_page(
                    doc,
                    ctx,
                    fonts,
                    tree,
                    acc.subrange(start, acc.len() as int),
                ) {
                    Err(_) => doc,
                    Ok(d) => match laid_row(
                        ctx,
                        chinese[i],
                        english[i],
                        safe_area(ctx).0,
                        right_column(ctx),
                        top,
                        column_width(ctx),
                    ) {
                        Err(_) => d,
                        Ok(again) => side_by_side_reached(
                            d,
                            ctx,
                            fonts,
                            tree,
                            chinese,
                            english,
                            i + 1,
                            top + again.height + row_spacing(ctx),
                            with_optional(with_optional(acc, again.left), again.right),
                            acc.len() as int,
                        ),
                    },
                }
            } else {
                side_by_side_reached(
                    doc,
                    ctx,
                    fonts,
                    tree,
                    chinese,
                    english,
                    i + 1,
                    y + row.height + row_spacing(ctx),
                    with_optional(with_optional(acc, row.left), row.right),
                    start,
                )
            },
        }
    }
}

/// The side-by-side layout leaves the page tree recording the number of
/// its pages.
pub proof fn lemma_side_by_side_consistent(
    doc: DocumentView,
    ctx: FontContext,
    fonts: Seq<FontResourceView>,
    tree: ObjectId,
    chinese: Seq<Seq<char>>,
    english: Seq<Seq<char>>,
    i: int,
    y: int,
    acc: Seq<ParagraphView>,
    start: int,
)
    requires
        tree_consistent(doc, tree),
        side_by_side_from(doc, ctx, fonts, tree, chinese, english, i, y, acc, start) is Ok,
    ensures
        tree_consistent(
            side_by_side_from(doc, ctx, fonts, tree, chinese, english, i, y, acc, start)->Ok_0,
            tree,
        ),
    decreases chinese.len() - i,
{
    let top = safe_area(ctx).1;
    let bottom = top + safe_area(ctx).3;
    let page = acc.subrange(start, acc.len() as int);
    if i < 0 || i >= chinese.len() || i >= english.len() {
        if 0 <= start < acc.len() {
            lemma_single_page_consistent(doc, ctx, fonts, tree, page);
        }
    } else if y <= MAX_ORIGIN {
        let row = laid_row(
            ctx,
            chinese[i],
            english[i],
            safe_area(ctx).0,
            right_column(ctx),
            y,
            column_width(ctx),
        );
        if row is Ok {
            if y + row->Ok_0.height > bottom && 0 <= start < acc.len() {
                lemma_single_page_consistent(doc, ctx, fonts, tree, page);
                let d = with_single_page(doc, ctx, fonts, tree, page)->Ok_0;
                let again = laid_row(
                    ctx,
                    chinese[i],
                    english[i],
                    safe_area(ctx).0,
                    right_column(ctx),
                    top,
                    column_width(ctx),
                );
                if again is Ok {
                    lemma_side_by_side_consistent(
                        d,
                        ctx,
                        fonts,
                        tree,
                        chinese,
                        english,
                        i + 1,
                        top + again->Ok_0.height + row_spacing(ctx),
                        with_optional(with_optional(acc, again->Ok_0.left), again->Ok_0.right),
                        acc.len() as int,
                    );
                }
            } else {
                lemma_side_by_side_consistent(
                    doc,
                    ctx,
                    fonts,
                    tree,
                    chinese,
                    english,
                    i + 1,
                    y + row->Ok_0.height + row_spacing(ctx),
                    with_optional(with_optional(acc, row->Ok_0.left), row->Ok_0.right),
                    start,
                );
            }
        }
    }
}

/// The fonts that an initialized document records, given the fonts
/// recorded before.
pub open spec fn initialized_fonts(
    doc: DocumentView,
    ctx: FontContext,
    fonts: Seq<FontResourceView>,
) -> Seq<FontResourceView> {
    with_resource(
        with_resource(
            fonts,
            "chinese"@,
            (doc.objects.len() + chinese_font_objects(ctx)) as u32,
        ),
        "english"@,
        (doc.objects.len() + chinese_font_objects(ctx) + 1) as u32,
    )
}

/// The page tree of an initialized document.
pub open spec fn initialized_tree(doc: DocumentView, ctx: FontContext) -> ObjectId {
    (doc.objects.len() + chinese_font_objects(ctx) + 2) as u32
}

/// What generating a document gives, before the pages are made: the
/// initialized document, or why generation stops.
///
/// Sections that differ in number are refused first, then settings outside
/// the supported range, then a document without room for the fonts.
pub open spec fn prepared(
    doc: DocumentView,
    ctx: FontContext,
    chinese: Seq<Seq<char>>,
    english: Seq<Seq<char>>,
) -> Result<DocumentView, PdfError> {
    if chinese.len() != english.len() {
        Err(PdfError::SectionMismatch { chinese: chinese.len() as usize, english: english.len() as usize })
    } else if !ctx.valid() {
        Err(PdfError::Layout(LayoutError::InvalidGeometry))
    } else if doc.objects.len() + chinese_font_objects(ctx) + 4 > MAX_OBJECTS {
        Err(PdfError::Format)
    } else {
        Ok(initialized_document(doc, ctx))
    }
}

/// The document that the alternating layout of some sections gives, or why
/// there is none.
pub open spec fn generated_alternating(
    doc: DocumentView,
    ctx: FontContext,
    fonts: Seq<FontResourceView>,
    chinese: Seq<Seq<char>>,
    english: Seq<Seq<char>>,
) -> Result<DocumentView, PdfError> {
    match prepared(doc, ctx, chinese, english) {
        Err(e) => Err(e),
        Ok(d) => match alternating_layout(ctx, chinese, english) {
            Err(e) => Err(PdfError::Layout(e)),
            Ok(ps) => pages_from(
                d,
                ctx,
                initialized_fonts(doc, ctx, fonts),
                initialized_tree(doc, ctx),
                ps,
                safe_area(ctx).3,
                0,
                0,
            ),
        },
    }
}

/// The document that the side-by-side layout of some sections gives, or
/// why there is none.
pub open spec fn generated_side_by_side(
    doc: DocumentView,
    ctx: FontContext,
    fonts: Seq<FontResourceView>,
    chinese: Seq<Seq<char>>,
    english: Seq<Seq<char>>,
) -> Result<DocumentView, PdfError> {
    match prepared(doc, ctx, chinese, english) {
        Err(e) => Err(e),
        Ok(d) => side_by_side_from(
            d,
            ctx,
            initialized_fonts(doc, ctx, fonts),
            initialized_tree(doc, ctx),
            chinese,
            english,
            0,
            safe_area(ctx).1,
            Seq::empty(),
            0,
        ),
    }
}

impl BilingualPdfGenerator {
    /// Lays out one text of a section, unless it is blank.
    pub fn layout_optional(&self, text: &str, x: i64, y: i64, width: i64, is_chinese: bool) -> (result:
        Result<Option<FormattedParagraph>, LayoutError>)
        ensures
            match result {
                Ok(Some(p)) => optional_paragraph(
                    self.ctx(),
                    text@,
                    x as int,
                    y as int,
                    width as int,
                    is_chinese,
                ) == Ok::<Option<ParagraphView>, LayoutError>(Some(p@)) && p@.placed(),
                Ok(None) => optional_paragraph(
                    self.ctx(),
                    text@,
                    x as int,
                    y as int,
                    width as int,
                    is_chinese,
                ) == Ok::<Option<ParagraphView>, LayoutError>(None),
                Err(e) => optional_paragraph(
                    self.ctx(),
                    text@,
                    x as int,
                    y as int,
                    width as int,
                    is_chinese,
                ) == Err::<Option<ParagraphView>, LayoutError>(e),
            },
    {
        if str_is_blank(text) {
            Ok(None)
        } else {
            match self.layout_engine.layout_paragraph(text, x, y, width, is_chinese) {
                Ok(p) => Ok(Some(p)),
                Err(e) => Err(e),
            }
        }
    }

    /// Lays out the sections one below the other: for each section its
    /// Chinese paragraph, then its English one.
    pub fn create_alternating_layout(
        &self,
        chinese_sections: &Vec<String>,
        english_sections: &Vec<String>,
    ) -> (result: Result<Vec<FormattedParagraph>, LayoutError>)
        requires
            self.ctx().valid(),
        ensures
            match result {
                Ok(v) => alternating_layout(
                    self.ctx(),
                    section_views(chinese_sections@),
                    section_views(english_sections@),
                ) == Ok::<Seq<ParagraphView>, LayoutError>(paragraph_views(v@)) && forall|
                    i: int,
                | 0 <= i < v@.len() ==> (#[trigger] v@[i])@.placed(),
                Err(e) => alternating_layout(
                    self.ctx(),
                    section_views(chinese_sections@),
                    section_views(english_sections@),
                ) == Err::<Seq<ParagraphView>, LayoutError>(e),
            },
    {
        let ghost ctx = self.ctx();
        let ghost zh = section_views(chinese_sections@);
        let ghost en = section_views(english_sections@);
        let (content_x, content_y, content_width, _content_height) = self.safe_content_area();
        let line_height: i64 = self.layout_engine.font_context.get_line_height(true);
        let gap: i64 = div_trunc(line_height, 2);
        proof {
            lemma_trunc_div_bounds(line_height as int, 2);
        }
        let mut all: Vec<FormattedParagraph> = Vec::new();
        let mut y: i64 = content_y;
        let mut i: usize = 0;
        assert(paragraph_views(all@) =~= Seq::<ParagraphView>::empty());
        while i < chinese_sections.len() && i < english_sections.len()
            invariant
                ctx == self.ctx(),
                ctx.valid(),
                zh == section_views(chinese_sections@),
                en == section_views(english_sections@),
                (content_x as int, content_y as int, content_width as int) == (
                    safe_area(ctx).0,
                    safe_area(ctx).1,
                    safe_area(ctx).2,
                ),
                gap == paragraph_gap(ctx),
                0 <= gap <= 10_000_000_000,
                i <= chinese_sections.len(),
                0 <= y <= 5_000_000_000_000_000_000,
                forall|k: int| 0 <= k < all@.len() ==> (#[trigger] all@[k])@.placed(),
                alternating_from(ctx, zh, en, i as int, y as int, paragraph_views(all@))
                    == alternating_layout(ctx, zh, en),
            decreases chinese_sections.len() - i,
        {
            if y > MAX_ORIGIN {
                return Err(LayoutError::InvalidGeometry);
            }
            assert(zh[i as int] == chinese_sections@[i as int]@);
            assert(en[i as int] == english_sections@[i as int]@);
            let ghost acc0 = paragraph_views(all@);
            let first = match self.layout_optional(
                chinese_sections[i].as_str(),
                content_x,
                y,
                content_width,
                true,
            ) {
                Ok(p) => p,
                Err(e) => {
                    return Err(e);
                },
            };
            let ghost first_view = optional_view(first);
            match first {
                Some(p) => {
                    y = y + p.height + gap;
                    all.push(p);
                },
                None => {},
            }
            let ghost acc1 = paragraph_views(all@);
            assert(acc1 =~= with_optional(acc0, first_view));
            let second = match self.layout_optional(
                english_sections[i].as_str(),
                content_x,
                y,
                content_width,
                false,
            ) {
                Ok(p) => p,
                Err(e) => {
                    return Err(e);
                },
            };
            let ghost second_view = optional_view(second);
            match second {
                Some(p) => {
                    y = y + p.height + gap;
                    all.push(p);
                },
                None => {},
            }
            assert(paragraph_views(all@) =~= with_optional(acc1, second_view));
            if i < chinese_sections.len() - 1 {
                y = y + 2 * gap;
            }
            i += 1;
        }
        Ok(all)
    }

    /// Groups the paragraphs into pages and adds each page to the document.
    pub fn create_pages_from_paragraphs(&mut self, paragraphs: &Vec<FormattedParagraph>) -> (result:
        Result<(), PdfError>)
        requires
            old(self).ctx().valid(),
            forall|i: int| 0 <= i < paragraphs@.len() ==> (#[trigger] paragraphs@[i])@.placed(),
        ensures
            final(self).layout_engine == old(self).layout_engine,
            final(self).hocr_generator == old(self).hocr_generator,
            final(self).font_objects == old(self).font_objects,
            final(self).pages_id == old(self).pages_id,
            final(self).document@ == pages_reached(
                old(self).document@,
                old(self).ctx(),
                old(self).fonts(),
                old(self).pages_id,
                paragraph_views(paragraphs@),
                safe_area(old(self).ctx()).3,
                0,
                0,
            ),
            match result {
                Ok(_) => pages_from(
                    old(self).document@,
                    old(self).ctx(),
                    old(self).fonts(),
                    old(self).pages_id,
                    paragraph_views(paragraphs@),
                    safe_area(old(self).ctx()).3,
                    0,
                    0,
                ) == Ok::<DocumentView, PdfError>(final(self).document@),
                Err(e) => pages_from(
                    old(self).document@,
                    old(self).ctx(),
                    old(self).fonts(),
                    old(self).pages_id,
                    paragraph_views(paragraphs@),
                    safe_area(old(self).ctx()).3,
                    0,
                    0,
                ) == Err::<DocumentView, PdfError>(e),
            },
    {
        let ghost ctx = self.ctx();
        let ghost fonts = self.fonts();
        let ghost tree = self.pages_id;
        let ghost ps = paragraph_views(paragraphs@);
        let ghost first = self.document@;
        let (_x, _y, _w, limit) = self.safe_content_area();
        let n = paragraphs.len();
        let mut start: usize = 0;
        let mut i: usize = 0;
        while i < n
            invariant
                n == paragraphs.len(),
                ps == paragraph_views(paragraphs@),
                first == old(self).document@,
                forall|k: int| 0 <= k < paragraphs@.len() ==> (#[trigger] paragraphs@[k])@.placed(),
                self.layout_engine == old(self).layout_engine,
                self.hocr_generator == old(self).hocr_generator,
                self.font_objects == old(self).font_objects,
                self.pages_id == old(self).pages_id,
                ctx == self.ctx(),
                ctx.valid(),
                fonts == self.fonts(),
                tree == self.pages_id,
                limit == safe_area(ctx).3,
                0 < limit <= MAX_LENGTH,
                start <= i <= n,
                pages_from(self.document@, ctx, fonts, tree, ps, limit as int, i as int, start as int)
                    == pages_from(first, ctx, fonts, tree, ps, limit as int, 0, 0),
                pages_reached(
                    self.document@,
                    ctx,
                    fonts,
                    tree,
                    ps,
                    limit as int,
                    i as int,
                    start as int,
                ) == pages_reached(first, ctx, fonts, tree, ps, limit as int, 0, 0),
            decreases n - i,
        {
            assert(ps[i as int] == paragraphs@[i as int]@);
            assert(paragraphs@[i as int]@.placed());
            if start < i {
                assert(ps[start as int] == paragraphs@[start as int]@);
                assert(paragraphs@[start as int]@.placed());
            }
            if start < i && paragraphs[i].y - paragraphs[start].y + paragraphs[i].height > limit {
                match self.create_single_page(paragraphs, start, i) {
                    Ok(_) => {},
                    Err(e) => {
                        return Err(e);
                    },
                }
                start = i;
            }
            i += 1;
        }
        assert(ps.len() == n);
        if start < n {
            match self.create_single_page(paragraphs, start, n) {
                Ok(_) => {},
                Err(e) => {
                    return Err(e);
                },
            }
        }
        Ok(())
    }

    /// Generates the document of the alternating layout of the sections.
    pub fn generate_bilingual_pdf(
        &mut self,
        chinese_sections: &Vec<String>,
        english_sections: &Vec<String>,
    ) -> (result: Result<(), PdfError>)
        ensures
            final(self).layout_engine == old(self).layout_engine,
            final(self).hocr_generator == old(self).hocr_generator,
            prepared(
                old(self).document@,
                old(self).ctx(),
                section_views(chinese_sections@),
                section_views(english_sections@),
            ) is Err ==> final(self).document == old(self).document && final(self).font_objects
                == old(self).font_objects && final(self).pages_id == old(self).pages_id,
            prepared(
                old(self).document@,
                old(self).ctx(),
                section_views(chinese_sections@),
                section_views(english_sections@),
            ) is Ok && alternating_layout(
                old(self).ctx(),
                section_views(chinese_sections@),
                section_views(english_sections@),
            ) is Err ==> final(self).document@ == initialized_document(
                old(self).document@,
                old(self).ctx(),
            ),
            prepared(
                old(self).document@,
                old(self).ctx(),
                section_views(chinese_sections@),
                section_views(english_sections@),
            ) is Ok && alternating_layout(
                old(self).ctx(),
                section_views(chinese_sections@),
                section_views(english_sections@),
            ) is Ok ==> final(self).document@ == pages_reached(
                initialized_document(old(self).document@, old(self).ctx()),
                old(self).ctx(),
                initialized_fonts(old(self).document@, old(self).ctx(), old(self).fonts()),
                initialized_tree(old(self).document@, old(self).ctx()),
                alternating_layout(
                    old(self).ctx(),
                    section_views(chinese_sections@),
                    section_views(english_sections@),
                )->Ok_0,
                safe_area(old(self).ctx()).3,
                0,
                0,
            ),
            match result {
                Ok(_) => generated_alternating(
                    old(self).document@,
                    old(self).ctx(),
                    old(self).fonts(),
                    section_views(chinese_sections@),
                    section_views(english_sections@),
                ) == Ok::<DocumentView, PdfError>(final(self).document@),
                Err(e) => generated_alternating(
                    old(self).document@,
                    old(self).ctx(),
                    old(self).fonts(),
                    section_views(chinese_sections@),
                    section_views(english_sections@),
                ) == Err::<DocumentView, PdfError>(e),
            },
    {
        if chinese_sections.len() != english_sections.len() {
            return Err(
                PdfError::SectionMismatch {
                    chinese: chinese_sections.len(),
                    english: english_sections.len(),
                },
            );
        }
        if !self.layout_engine.font_context.is_valid() {
            return Err(PdfError::Layout(LayoutError::InvalidGeometry));
        }
        match self.initialize_document() {
            Ok(_) => {},
            Err(e) => {
                return Err(e);
            },
        }
        let all_paragraphs = match self.create_alternating_layout(
            chinese_sections,
            english_sections,
        ) {
            Ok(v) => v,
            Err(e) => {
                return Err(PdfError::Layout(e));
            },
        };
        self.create_pages_from_paragraphs(&all_paragraphs)
    }
}

/// A generator with an empty document.
pub fn create_bilingual_generator(font_context: FontContext) -> (generator: BilingualPdfGenerator)
    ensures
        generator.ctx() == font_context,
        generator.document@ == DocumentView::empty(),
        generator.fonts() == Seq::<FontResourceView>::empty(),
        generator.pages_id == 0,
{
    BilingualPdfGenerator::new(font_context)
}

/// Generates the document of the alternating layout of the sections with
/// the given fonts and settings.
pub fn create_bilingual_pdf_with_context(
    chinese_sections: &Vec<String>,
    english_sections: &Vec<String>,
    font_context: FontContext,
) -> (result: Result<PdfDocument, PdfError>)
    ensures
        match result {
            Ok(doc) => generated_alternating(
                DocumentView::empty(),
                font_context,
                Seq::empty(),
                section_views(chinese_sections@),
                section_views(english_sections@),
            ) == Ok::<DocumentView, PdfError>(doc@),
            Err(e) => generated_alternating(
                DocumentView::empty(),
                font_context,
                Seq::empty(),
                section_views(chinese_sections@),
                section_views(english_sections@),
            ) == Err::<DocumentView, PdfError>(e),
        },
{
    let mut generator = create_bilingual_generator(font_context);
    match generator.generate_bilingual_pdf(chinese_sections, english_sections) {
        Ok(_) => Ok(generator.document),
        Err(e) => Err(e),
    }
}

/// The value of a laid-out row.
pub open spec fn row_view(
    row: (Option<FormattedParagraph>, Option<FormattedParagraph>, i64),
) -> RowView {
    RowView { left: optional_view(row.0), right: optional_view(row.1), height: row.2 as int }
}

impl BilingualPdfGenerator {
    /// Lays out the row of a section: the Chinese paragraph in the left
    /// column, the English one in the right column, both with their top at
    /// `row_y`. Returns the paragraphs and the height of the row.
    pub fn layout_side_by_side_row(
        &self,
        zh_text: &str,
        en_text: &str,
        left_x: i64,
        right_x: i64,
        row_y: i64,
        column_width: i64,
    ) -> (result: Result<(Option<FormattedParagraph>, Option<FormattedParagraph>, i64), LayoutError>)
        requires
            self.ctx().valid(),
        ensures
            match result {
                Ok(row) => {
                    &&& laid_row(
                        self.ctx(),
                        zh_text@,
                        en_text@,
                        left_x as int,
                        right_x as int,
                        row_y as int,
                        column_width as int,
                    ) == Ok::<RowView, LayoutError>(row_view(row))
                    &&& row.0 is Some ==> row.0->0@.placed()
                    &&& row.1 is Some ==> row.1->0@.placed()
                    &&& 0 <= row.2 <= MAX_HEIGHT
                },
                Err(e) => laid_row(
                    self.ctx(),
                    zh_text@,
                    en_text@,
                    left_x as int,
                    right_x as int,
                    row_y as int,
                    column_width as int,
                ) == Err::<RowView, LayoutError>(e),
            },
    {
        let zh_para = match self.layout_optional(zh_text, left_x, row_y, column_width, true) {
            Ok(p) => p,
            Err(e) => {
                return Err(e);
            },
        };
        let en_para = match self.layout_optional(en_text, right_x, row_y, column_width, false) {
            Ok(p) => p,
            Err(e) => {
                return Err(e);
            },
        };
        let zh_height: i64 = match &zh_para {
            Some(p) => p.height,
            None => 0,
        };
        let en_height: i64 = match &en_para {
            Some(p) => p.height,
            None => 0,
        };
        let line_height: i64 = self.layout_engine.font_context.get_line_height(true);
        let mut row_height: i64 = if zh_height < en_height {
            en_height
        } else {
            zh_height
        };
        if row_height < line_height {
            row_height = line_height;
        }
        Ok((zh_para, en_para, row_height))
    }

    /// Lays the sections out in rows of two columns and adds the pages to
    /// the document.
    pub fn create_pages_side_by_side(
        &mut self,
        chinese_sections: &Vec<String>,
        english_sections: &Vec<String>,
    ) -> (result: Result<(), PdfError>)
        requires
            old(self).ctx().valid(),
        ensures
            final(self).layout_engine == old(self).layout_engine,
            final(self).hocr_generator == old(self).hocr_generator,
            final(self).font_objects == old(self).font_objects,
            final(self).pages_id == old(self).pages_id,
            final(self).document@ == side_by_side_reached(
                old(self).document@,
                old(self).ctx(),
                old(self).fonts(),
                old(self).pages_id,
                section_views(chinese_sections@),
                section_views(english_sections@),
                0,
                safe_area(old(self).ctx()).1,
                Seq::empty(),
                0,
            ),
            match result {
                Ok(_) => side_by_side_from(
                    old(self).document@,
                    old(self).ctx(),
                    old(self).fonts(),
                    old(self).pages_id,
                    section_views(chinese_sections@),
                    section_views(english_sections@),
                    0,
                    safe_area(old(self).ctx()).1,
                    Seq::empty(),
                    0,
                ) == Ok::<DocumentView, PdfError>(final(self).document@),
                Err(e) => side_by_side_from(
                    old(self).document@,
                    old(self).ctx(),
                    old(self).fonts(),
                    old(self).pages_id,
                    section_views(chinese_sections@),
                    section_views(english_sections@),
                    0,
                    safe_area(old(self).ctx()).1,
                    Seq::empty(),
                    0,
                ) == Err::<DocumentView, PdfError>(e),
            },
    {
        let ghost ctx = self.ctx();
        let ghost fonts = self.fonts();
        let ghost tree = self.pages_id;
        let ghost zh = section_views(chinese_sections@);
        let ghost en = section_views(english_sections@);
        let ghost first = self.document@;
        let (content_x, content_y, content_width, content_height) = self.safe_content_area();
        let page_bottom: i64 = content_y + content_height;
        let half: i64 = div_trunc(content_width - COLUMN_GUTTER, 2);
        proof {
            lemma_trunc_div_bounds(content_width - COLUMN_GUTTER, 2);
        }
        let column: i64 = if half < MIN_EXTENT {
            MIN_EXTENT
        } else {
            half
        };
        let right_x: i64 = content_x + column + COLUMN_GUTTER;
        let line_height: i64 = self.layout_engine.font_context.get_line_height(true);
        let spacing_factor: i64 = if self.layout_engine.font_context.paragraph_spacing < 200 {
            200
        } else {
            self.layout_engine.font_context.paragraph_spacing
        };
        proof {
            assert(0 <= line_height * spacing_factor <= 20_000_000_000 * 1_000_000)
                by (nonlinear_arith)
                requires
                    0 <= line_height <= 20_000_000_000,
                    0 <= spacing_factor <= 1_000_000,
            ;
            lemma_trunc_div_bounds(line_height * spacing_factor, 1000);
        }
        let scaled: i64 = scale_i64(line_height, spacing_factor, 1000);
        let spacing: i64 = if scaled < 4000 {
            4000
        } else {
            scaled
        };
        let mut all: Vec<FormattedParagraph> = Vec::new();
        let mut start: usize = 0;
        let mut y: i64 = content_y;
        let mut i: usize = 0;
        assert(paragraph_views(all@) =~= Seq::<ParagraphView>::empty());
        while i < chinese_sections.len() && i < english_sections.len()
            invariant
                self.layout_engine == old(self).layout_engine,
                self.hocr_generator == old(self).hocr_generator,
                self.font_objects == old(self).font_objects,
                self.pages_id == old(self).pages_id,
                first == old(self).document@,
                ctx == self.ctx(),
                ctx.valid(),
                fonts == self.fonts(),
                tree == self.pages_id,
                zh == section_views(chinese_sections@),
                en == section_views(english_sections@),
                content_x == safe_area(ctx).0,
                content_y == safe_area(ctx).1,
                0 < content_y <= MAX_LENGTH + SAFE_INSET,
                page_bottom == safe_area(ctx).1 + safe_area(ctx).3,
                column == column_width(ctx),
                right_x == right_column(ctx),
                spacing == row_spacing(ctx),
                0 <= spacing <= 20_000_000_000_000,
                i <= chinese_sections.len(),
                start <= all@.len(),
                0 <= y <= 5_000_000_000_000_000_000,
                forall|k: int| 0 <= k < all@.len() ==> (#[trigger] all@[k])@.placed(),
                side_by_side_from(
                    self.document@,
                    ctx,
                    fonts,
                    tree,
                    zh,
                    en,
                    i as int,
                    y as int,
                    paragraph_views(all@),
                    start as int,
                ) == side_by_side_from(
                    first,
                    ctx,
                    fonts,
                    tree,
                    zh,
                    en,
                    0,
                    safe_area(ctx).1,
                    Seq::empty(),
                    0,
                ),
                side_by_side_reached(
                    self.document@,
                    ctx,
                    fonts,
                    tree,
                    zh,
                    en,
                    i as int,
                    y as int,
                    paragraph_views(all@),
                    start as int,
                ) == side_by_side_reached(
                    first,
                    ctx,
                    fonts,
                    tree,
                    zh,
                    en,
                    0,
                    safe_area(ctx).1,
                    Seq::empty(),
                    0,
                ),
            decreases chinese_sections.len() - i,
        {
            if y > MAX_ORIGIN {
                return Err(PdfError::Layout(LayoutError::InvalidGeometry));
            }
            assert(zh[i as int] == chinese_sections@[i as int]@);
            assert(en[i as int] == english_sections@[i as int]@);
            let ghost acc0 = paragraph_views(all@);
            let mut row = match self.layout_side_by_side_row(
                chinese_sections[i].as_str(),
                english_sections[i].as_str(),
                content_x,
                right_x,
                y,
                column,
            ) {
                Ok(r) => r,
                Err(e) => {
                    return Err(PdfError::Layout(e));
                },
            };
            if y + row.2 > page_bottom && start < all.len() {
                let end = all.len();
                match self.create_single_page(&all, start, end) {
                    Ok(_) => {},
                    Err(e) => {
                        return Err(e);
                    },
                }
                start = end;
                y = content_y;
                row = match self.layout_side_by_side_row(
                    chinese_sections[i].as_str(),
                    english_sections[i].as_str(),
                    content_x,
                    right_x,
                    y,
                    column,
                ) {
                    Ok(r) => r,
                    Err(e) => {
                        return Err(PdfError::Layout(e));
                    },
                };
            }
            let ghost placed_row = row_view(row);
            let (zh_para, en_para, row_height) = row;
            match zh_para {
                Some(p) => {
                    all.push(p);
                },
                None => {},
            }
            let ghost acc1 = paragraph_views(all@);
            assert(acc1 =~= with_optional(acc0, placed_row.left));
            match en_para {
                Some(p) => {
                    all.push(p);
                },
                None => {},
            }
            assert(paragraph_views(all@) =~= with_optional(acc1, placed_row.right));
            y = y + row_height + spacing;
            i += 1;
        }
        assert(paragraph_views(all@).len() == all@.len());
        if start < all.len() {
            let end = all.len();
            match self.create_single_page(&all, start, end) {
                Ok(_) => {},
                Err(e) => {
                    return Err(e);
                },
            }
        }
        Ok(())
    }

    /// Generates the document of the side-by-side layout of the sections.
    pub fn generate_bilingual_pdf_side_by_side(
        &mut self,
        chinese_sections: &Vec<String>,
        english_sections: &Vec<String>,
    ) -> (result: Result<(), PdfError>)
        ensures
            final(self).layout_engine == old(self).layout_engine,
            final(self).hocr_generator == old(self).hocr_generator,
            prepared(
                old(self).document@,
                old(self).ctx(),
                section_views(chinese_sections@),
                section_views(english_sections@),
            ) is Err ==> final(self).document == old(self).document && final(self).font_objects
                == old(self).font_objects && final(self).pages_id == old(self).pages_id,
            prepared(
                old(self).document@,
                old(self).ctx(),
                section_views(chinese_sections@),
                section_views(english_sections@),
            ) is Ok ==> final(self).document@ == side_by_side_reached(
                initialized_document(old(self).document@, old(self).ctx()),
                old(self).ctx(),
                initialized_fonts(old(self).document@, old(self).ctx(), old(self).fonts()),
                initialized_tree(old(self).document@, old(self).ctx()),
                section_views(chinese_sections@),
                section_views(english_sections@),
                0,
                safe_area(old(self).ctx()).1,
                Seq::empty(),
                0,
            ),
            match result {
                Ok(_) => generated_side_by_side(
                    old(self).document@,
                    old(self).ctx(),
                    old(self).fonts(),
                    section_views(chinese_sections@),
                    section_views(english_sections@),
                ) == Ok::<DocumentView, PdfError>(final(self).document@),
                Err(e) => generated_side_by_side(
                    old(self).document@,
                    old(self).ctx(),
                    old(self).fonts(),
                    section_views(chinese_sections@),
                    section_views(english_sections@),
                ) == Err::<DocumentView, PdfError>(e),
            },
    {
        if chinese_sections.len() != english_sections.len() {
            return Err(
                PdfError::SectionMismatch {
                    chinese: chinese_sections.len(),
                    english: english_sections.len(),
                },
            );
        }
        if !self.layout_engine.font_context.is_valid() {
            return Err(PdfError::Layout(LayoutError::InvalidGeometry));
        }
        match self.initialize_document() {
            Ok(_) => {},
            Err(e) => {
                return Err(e);
            },
        }
        self.create_pages_side_by_side(chinese_sections, english_sections)
    }
}

/// Generates the document of the side-by-side layout of the sections with
/// the given fonts and settings.
pub fn create_bilingual_pdf_side_by_side_with_context(
    chinese_sections: &Vec<String>,
    english_sections: &Vec<String>,
    font_context: FontContext,
) -> (result: Result<PdfDocument, PdfError>)
    ensures
        match result {
            Ok(doc) => generated_side_by_side(
                DocumentView::empty(),
                font_context,
                Seq::empty(),
                section_views(chinese_sections@),
                section_views(english_sections@),
            ) == Ok::<DocumentView, PdfError>(doc@),
            Err(e) => generated_side_by_side(
                DocumentView::empty(),
                font_context,
                Seq::empty(),
                section_views(chinese_sections@),
                section_views(english_sections@),
            ) == Err::<DocumentView, PdfError>(e),
        },
{
    let mut generator = create_bilingual_generator(font_context);
    match generator.generate_bilingual_pdf_side_by_side(chinese_sections, english_sections) {
        Ok(_) => Ok(generator.document),
        Err(e) => Err(e),
    }
}

} // verus!
