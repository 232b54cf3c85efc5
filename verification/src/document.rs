//! The document object graph: PDF objects keyed by object number.

use crate::typography::LayoutError;
use vstd::prelude::*;
use vstd::string::StrSliceExecFns;
use vstd::utf8::encode_utf8;

verus! {

/// The number of an object of the document; the first object has number 1.
pub type ObjectId = u32;

/// Why a document could not be built.
#[derive(Clone, Copy, Debug, PartialEq, Eq)]
pub enum PdfError {
    /// The Chinese and the English sections differ in number.
    SectionMismatch { chinese: usize, english: usize },
    /// A paragraph could not be laid out.
    Layout(LayoutError),
    /// The object graph rejects the operation: an object is missing or of
    /// another kind than the operation needs, or the table is full.
    Format,
}

/// How a string object is written.
#[derive(Clone, Copy, Debug, PartialEq, Eq, Structural)]
pub enum StringFormat {
    Literal,
    Hexadecimal,
}

/// A PDF object that can stand inside another.
#[derive(Debug, PartialEq, Eq)]
pub enum PdfObject {
    Null,
    Integer(i64),
    /// A real number, in thousandths.
    Real(i64),
    Name(String),
    Text(Vec<u8>, StringFormat),
    Array(Vec<PdfObject>),
    Dictionary(Vec<Entry>),
    Reference(ObjectId),
}

/// An entry of a dictionary.
#[derive(Debug, PartialEq, Eq)]
pub struct Entry {
    pub key: String,
    pub value: PdfObject,
}

/// What a PDF object is, as a mathematical value.
pub enum ObjectView {
    Null,
    Integer(int),
    Real(int),
    Name(Seq<char>),
    Text(Seq<u8>, StringFormat),
    Array(Seq<ObjectView>),
    Dictionary(Seq<EntryView>),
    Reference(ObjectId),
}

/// What an entry of a dictionary is, as a mathematical value.
pub struct EntryView {
    pub key: Seq<char>,
    pub value: ObjectView,
}

/// The value of a PDF object.
pub open spec fn object_view(object: PdfObject) -> ObjectView
    decreases object,
{
    match object {
        PdfObject::Null => ObjectView::Null,
        PdfObject::Integer(n) => ObjectView::Integer(n as int),
        PdfObject::Real(n) => ObjectView::Real(n as int),
        PdfObject::Name(s) => ObjectView::Name(s@),
        PdfObject::Text(bytes, format) => ObjectView::Text(bytes@, format),
        PdfObject::Array(items) => ObjectView::Array(
            Seq::new(
                items@.len(),
                |i: int|
                    if 0 <= i < items@.len() {
                        object_view(items@[i])
                    } else {
                        ObjectView::Null
                    },
            ),
        ),
        PdfObject::Dictionary(entries) => ObjectView::Dictionary(
            Seq::new(
                entries@.len(),
                |i: int|
                    if 0 <= i < entries@.len() {
                        EntryView { key: entries@[i].key@, value: object_view(entries@[i].value) }
                    } else {
                        EntryView { key: Seq::empty(), value: ObjectView::Null }
                    },
            ),
        ),
        PdfObject::Reference(id) => ObjectView::Reference(id),
    }
}

impl View for PdfObject {
    type V = ObjectView;

    open spec fn view(&self) -> ObjectView {
        object_view(*self)
    }
}

impl View for Entry {
    type V = EntryView;

    open spec fn view(&self) -> EntryView {
        EntryView { key: self.key@, value: self.value@ }
    }
}

/// The values of a sequence of objects.
pub open spec fn object_views(objects: Seq<PdfObject>) -> Seq<ObjectView> {
    objects.map_values(|o: PdfObject| o@)
}

/// The values of a sequence of entries.
pub open spec fn entry_views(entries: Seq<Entry>) -> Seq<EntryView> {
    entries.map_values(|e: Entry| e@)
}

/// The value of an array is the array of the values of its items.
pub proof fn lemma_array_view(items: Vec<PdfObject>)
    ensures
        PdfObject::Array(items)@ == ObjectView::Array(object_views(items@)),
{
    assert(PdfObject::Array(items)@->Array_0 =~= object_views(items@));
}

/// The value of a dictionary is the dictionary of the values of its entries.
pub proof fn lemma_dictionary_view(entries: Vec<Entry>)
    ensures
        PdfObject::Dictionary(entries)@ == ObjectView::Dictionary(entry_views(entries@)),
{
    assert(PdfObject::Dictionary(entries)@->Dictionary_0 =~= entry_views(entries@));
}

/// The value that a dictionary gives to `key`: that of its first entry of
/// that key.
pub open spec fn lookup(entries: Seq<EntryView>, key: Seq<char>) -> Option<ObjectView>
    decreases entries.len(),
{
    if entries.len() == 0 {
        None
    } else if entries[0].key == key {
        Some(entries[0].value)
    } else {
        lookup(entries.drop_first(), key)
    }
}

/// The position of the first entry of the key among the first `upto`
/// entries, or `upto` where there is none.
pub open spec fn entry_index(entries: Seq<EntryView>, key: Seq<char>, upto: int) -> int
    decreases upto,
{
    if upto <= 0 {
        0
    } else {
        let before = entry_index(entries, key, upto - 1);
        if before < upto - 1 {
            before
        } else if entries[upto - 1].key == key {
            upto - 1
        } else {
            upto
        }
    }
}

/// The dictionary with `value` under `key`: in place of the value of the
/// first entry of that key, or in a new entry at the end.
pub open spec fn with_entry(
    entries: Seq<EntryView>,
    key: Seq<char>,
    value: ObjectView,
) -> Seq<EntryView> {
    let k = entry_index(entries, key, entries.len() as int);
    if k < entries.len() {
        entries.update(k, EntryView { key, value })
    } else {
        entries.push(EntryView { key, value })
    }
}

/// The first entry of a key lies within the entries looked at, and no entry
/// before it has the key.
pub proof fn lemma_entry_index(entries: Seq<EntryView>, key: Seq<char>, upto: int)
    requires
        0 <= upto <= entries.len(),
    ensures
        0 <= entry_index(entries, key, upto) <= upto,
        entry_index(entries, key, upto) < upto ==> entries[entry_index(
            entries,
            key,
            upto,
        )].key == key,
        forall|j: int| 0 <= j < entry_index(entries, key, upto) ==> entries[j].key != key,
    decreases upto,
{
    if upto > 0 {
        lemma_entry_index(entries, key, upto - 1);
    }
}

/// A dictionary gives to a key the value of the first entry of that key.
pub proof fn lemma_lookup_index(entries: Seq<EntryView>, key: Seq<char>)
    ensures
        lookup(entries, key) == if entry_index(entries, key, entries.len() as int)
            < entries.len() {
            Some(entries[entry_index(entries, key, entries.len() as int)].value)
        } else {
            None
        },
    decreases entries.len(),
{
    let n = entries.len() as int;
    lemma_entry_index(entries, key, n);
    if n > 0 {
        let rest = entries.drop_first();
        lemma_lookup_index(rest, key);
        lemma_entry_index(rest, key, n - 1);
        let k = entry_index(entries, key, n);
        let r = entry_index(rest, key, n - 1);
        if entries[0].key == key {
            if k > 0 {
                assert(entries[0].key != key);
            }
        } else {
            // the first entry of the key in the rest is one position further on
            if r < n - 1 {
                assert(rest[r].key == key);
                assert(entries[r + 1].key == key);
                if k > r + 1 {
                    assert(entries[r + 1].key != key);
                }
                if k < r + 1 {
                    assert(k > 0);
                    assert(rest[k - 1].key == entries[k].key);
                }
            } else {
                if k < n {
                    assert(k > 0);
                    assert(rest[k - 1].key == entries[k].key);
                }
            }
        }
    }
}

/// A dictionary gives to a key the value that was put under it, and to
/// every other key what it gave before.
pub proof fn lemma_lookup_with_entry(
    entries: Seq<EntryView>,
    key: Seq<char>,
    value: ObjectView,
    other: Seq<char>,
)
    ensures
        lookup(with_entry(entries, key, value), key) == Some(value),
        other != key ==> lookup(with_entry(entries, key, value), other) == lookup(entries, other),
{
    let n = entries.len() as int;
    let after = with_entry(entries, key, value);
    let m = after.len() as int;
    lemma_entry_index(entries, key, n);
    lemma_lookup_index(after, key);
    lemma_entry_index(after, key, m);
    let k = entry_index(entries, key, n);
    let a = entry_index(after, key, m);
    assert(after[k].key == key);
    if a > k {
        assert(after[k].key != key);
    }
    if a < k {
        assert(after[a].key == entries[a].key);
    }
    if other != key {
        lemma_lookup_index(after, other);
        lemma_lookup_index(entries, other);
        lemma_entry_index(entries, other, n);
        lemma_entry_index(after, other, m);
        let x = entry_index(entries, other, n);
        let y = entry_index(after, other, m);
        if x < n {
            assert(after[x].key == other);
            if y > x {
                assert(after[x].key != other);
            }
        }
        if y < m {
            assert(y != k);
            assert(y < n);
            assert(entries[y].key == other);
            if x > y {
                assert(entries[y].key != other);
            }
        }
    }
}

/// An instruction of a content stream: an operator and its operands.
#[derive(Debug, PartialEq, Eq)]
pub struct Operation {
    pub operator: String,
    pub operands: Vec<PdfObject>,
}

/// What an instruction is, as a mathematical value.
pub struct OperationView {
    pub operator: Seq<char>,
    pub operands: Seq<ObjectView>,
}

impl View for Operation {
    type V = OperationView;

    open spec fn view(&self) -> OperationView {
        OperationView { operator: self.operator@, operands: object_views(self.operands@) }
    }
}

/// The values of a sequence of instructions.
pub open spec fn operation_views(ops: Seq<Operation>) -> Seq<OperationView> {
    ops.map_values(|o: Operation| o@)
}

/// What an object number stands for.
#[derive(Debug, PartialEq, Eq)]
pub enum IndirectObject {
    /// A plain object.
    Value(PdfObject),
    /// A stream of bytes with its dictionary; the length of the bytes is
    /// recorded when the stream is written.
    Stream { dict: Vec<Entry>, content: Vec<u8> },
    /// A content stream, as the instructions that it holds.
    Content { operations: Vec<Operation> },
}

/// What an object number stands for, as a mathematical value.
pub enum IndirectView {
    Value(ObjectView),
    Stream { dict: Seq<EntryView>, content: Seq<u8> },
    Content { operations: Seq<OperationView> },
}

impl View for IndirectObject {
    type V = IndirectView;

    open spec fn view(&self) -> IndirectView {
        match self {
            IndirectObject::Value(object) => IndirectView::Value(object@),
            IndirectObject::Stream { dict, content } => IndirectView::Stream {
                dict: entry_views(dict@),
                content: content@,
            },
            IndirectObject::Content { operations } => IndirectView::Content {
                operations: operation_views(operations@),
            },
        }
    }
}

/// The values of a sequence of indirect objects.
pub open spec fn indirect_views(objects: Seq<IndirectObject>) -> Seq<IndirectView> {
    objects.map_values(|o: IndirectObject| o@)
}

/// A document under construction: its objects, the object numbered `n`
/// standing at position `n - 1`, and its trailer.
#[derive(Debug)]
pub struct PdfDocument {
    pub objects: Vec<IndirectObject>,
    /// The trailer dictionary, which names the catalog and the information
    /// dictionary.
    pub trailer: Vec<Entry>,
}

/// What a document is, as a mathematical value.
pub struct DocumentView {
    pub objects: Seq<IndirectView>,
    pub trailer: Seq<EntryView>,
}

impl View for PdfDocument {
    type V = DocumentView;

    open spec fn view(&self) -> DocumentView {
        DocumentView { objects: indirect_views(self.objects@), trailer: entry_views(self.trailer@) }
    }
}

/// Largest number of objects in a document, and of pages in a page tree.
pub const MAX_OBJECTS: usize = 0x7FFF_FFFF;

/// The object that holds a number taken for an object that is filled in
/// later.
pub open spec fn reserved() -> IndirectView {
    IndirectView::Value(ObjectView::Null)
}

impl DocumentView {
    /// The document without objects.
    pub open spec fn empty() -> DocumentView {
        DocumentView { objects: Seq::empty(), trailer: Seq::empty() }
    }

    /// Whether the document has an object numbered `id`.
    pub open spec fn has(self, id: ObjectId) -> bool {
        1 <= id <= self.objects.len()
    }

    /// The object numbered `id`.
    pub open spec fn get(self, id: ObjectId) -> IndirectView
        recommends
            self.has(id),
    {
        self.objects[id - 1]
    }

    /// The number that the next object gets.
    pub open spec fn next_id(self) -> int {
        (self.objects.len() + 1) as int
    }

    /// Whether the document can take another object.
    pub open spec fn has_room(self) -> bool {
        self.objects.len() < MAX_OBJECTS
    }

    /// The document with `object` added under the next number.
    pub open spec fn add(self, object: IndirectView) -> DocumentView {
        DocumentView { objects: self.objects.push(object), ..self }
    }

    /// The document with `object` in place of the object numbered `id`.
    pub open spec fn put(self, id: ObjectId, object: IndirectView) -> DocumentView
        recommends
            self.has(id),
    {
        DocumentView { objects: self.objects.update(id - 1, object), ..self }
    }

    /// Whether the object numbered `id` is a dictionary.
    pub open spec fn is_dictionary(self, id: ObjectId) -> bool {
        self.has(id) && self.get(id) is Value && self.get(id)->Value_0 is Dictionary
    }

    /// The entries of the dictionary numbered `id`.
    pub open spec fn entries(self, id: ObjectId) -> Seq<EntryView>
        recommends
            self.is_dictionary(id),
    {
        self.get(id)->Value_0->Dictionary_0
    }

    /// Whether the object numbered `id` is a page tree: a dictionary with a
    /// list of pages.
    pub open spec fn is_page_tree(self, id: ObjectId) -> bool {
        self.is_dictionary(id) && lookup(self.entries(id), "Kids"@) is Some && lookup(
            self.entries(id),
            "Kids"@,
        )->0 is Array
    }

    /// The pages of the page tree numbered `id`, in order.
    pub open spec fn kids(self, id: ObjectId) -> Seq<ObjectView>
        recommends
            self.is_page_tree(id),
    {
        lookup(self.entries(id), "Kids"@)->0->Array_0
    }

    /// What the page tree numbered `id` records as the number of its pages.
    pub open spec fn count(self, id: ObjectId) -> Option<ObjectView>
        recommends
            self.is_page_tree(id),
    {
        lookup(self.entries(id), "Count"@)
    }

    /// Whether the object numbered `id` is a page tree that can take
    /// another page.
    pub open spec fn can_take_page(self, id: ObjectId) -> bool {
        self.is_page_tree(id) && self.kids(id).len() < MAX_OBJECTS
    }

    /// The document with the page `page` appended to the page tree numbered
    /// `tree`: the recorded number is that of the pages after the append.
    pub open spec fn with_page(self, tree: ObjectId, page: ObjectId) -> DocumentView
        recommends
            self.is_page_tree(tree),
    {
        self.put(
            tree,
            IndirectView::Value(
                ObjectView::Dictionary(
                    with_entry(
                        with_entry(
                            self.entries(tree),
                            "Kids"@,
                            ObjectView::Array(self.kids(tree).push(ObjectView::Reference(page))),
                        ),
                        "Count"@,
                        ObjectView::Integer((self.kids(tree).len() + 1) as int),
                    ),
                ),
            ),
        )
    }

    /// The document with each of `pages` appended to the page tree in turn.
    pub open spec fn with_pages(self, tree: ObjectId, pages: Seq<ObjectId>) -> DocumentView
        decreases pages.len(),
    {
        if pages.len() == 0 {
            self
        } else {
            self.with_pages(tree, pages.drop_last()).with_page(tree, pages.last())
        }
    }
}

/// The references to some objects.
pub open spec fn references(ids: Seq<ObjectId>) -> Seq<ObjectView> {
    ids.map_values(|id: ObjectId| ObjectView::Reference(id))
}

/// The two keys of a page tree differ.
pub proof fn lemma_tree_keys_differ()
    ensures
        "Kids"@ != "Count"@,
{
    reveal_strlit("Kids");
    reveal_strlit("Count");
    assert("Kids"@.len() == 4);
    assert("Count"@.len() == 5);
}

/// Adding a page to a page tree appends the page to the list and leaves
/// the recorded number equal to the length of the list.
pub proof fn lemma_with_page_keeps_count(doc: DocumentView, tree: ObjectId, page: ObjectId)
    requires
        doc.is_page_tree(tree),
    ensures
        doc.with_page(tree, page).is_page_tree(tree),
        doc.with_page(tree, page).kids(tree) == doc.kids(tree).push(ObjectView::Reference(page)),
        doc.with_page(tree, page).count(tree) == Some(
            ObjectView::Integer(doc.with_page(tree, page).kids(tree).len() as int),
        ),
        doc.with_page(tree, page).objects.len() == doc.objects.len(),
{
    lemma_tree_keys_differ();
    let d = doc.entries(tree);
    let kids = ObjectView::Array(doc.kids(tree).push(ObjectView::Reference(page)));
    let d1 = with_entry(d, "Kids"@, kids);
    let count = ObjectView::Integer((doc.kids(tree).len() + 1) as int);
    lemma_lookup_with_entry(d, "Kids"@, kids, "Count"@);
    lemma_lookup_with_entry(d1, "Count"@, count, "Kids"@);
}

/// After any number of pages have been added to a page tree without pages,
/// the number that the tree records and the length of its list of pages
/// both equal the number of pages added.
pub proof fn lemma_page_tree_consistent(doc: DocumentView, tree: ObjectId, pages: Seq<ObjectId>)
    requires
        doc.is_page_tree(tree),
        doc.kids(tree).len() == 0,
        doc.count(tree) == Some(ObjectView::Integer(0)),
    ensures
        doc.with_pages(tree, pages).is_page_tree(tree),
        doc.with_pages(tree, pages).count(tree) == Some(ObjectView::Integer(pages.len() as int)),
        doc.with_pages(tree, pages).kids(tree) == references(pages),
        doc.with_pages(tree, pages).kids(tree).len() == pages.len(),
    decreases pages.len(),
{
    if pages.len() > 0 {
        let before = doc.with_pages(tree, pages.drop_last());
        lemma_page_tree_consistent(doc, tree, pages.drop_last());
        lemma_with_page_keeps_count(before, tree, pages.last());
        assert(references(pages.drop_last()).push(ObjectView::Reference(pages.last()))
            =~= references(pages));
    } else {
        assert(doc.kids(tree) =~= references(pages));
    }
}

/// The entry that gives `value` to `key`.
pub open spec fn entry(key: Seq<char>, value: ObjectView) -> EntryView {
    EntryView { key, value }
}

/// The literal string object of a text: its bytes are the UTF-8 form of the
/// text.
pub open spec fn literal(text: Seq<char>) -> ObjectView {
    ObjectView::Text(encode_utf8(text), StringFormat::Literal)
}

/// The dictionary of some entries, as an object of its own number.
pub open spec fn dictionary_object(entries: Seq<EntryView>) -> IndirectView {
    IndirectView::Value(ObjectView::Dictionary(entries))
}

/// The stream of some bytes with an empty dictionary.
pub open spec fn byte_stream(content: Seq<u8>) -> IndirectView {
    IndirectView::Stream { dict: Seq::empty(), content }
}

/// Whether two strings hold the same characters.
pub fn same_text(a: &str, b: &str) -> (r: bool)
    ensures
        r == (a@ == b@),
{
    let x = crate::chars::string_to_chars(a);
    let y = crate::chars::string_to_chars(b);
    if x.len() != y.len() {
        return false;
    }
    let mut i: usize = 0;
    while i < x.len()
        invariant
            x@ == a@,
            y@ == b@,
            x.len() == y.len(),
            i <= x.len(),
            forall|j: int| 0 <= j < i ==> x@[j] == y@[j],
        decreases x.len() - i,
    {
        if x[i] != y[i] {
            return false;
        }
        i += 1;
    }
    assert(x@ =~= y@);
    true
}

/// The position of the first entry of a key, or the number of entries
/// where there is none.
pub fn find_entry(entries: &Vec<Entry>, key: &str) -> (k: usize)
    ensures
        k == entry_index(entry_views(entries@), key@, entries@.len() as int),
        k <= entries@.len(),
{
    let ghost d = entry_views(entries@);
    let n = entries.len();
    let mut i: usize = 0;
    while i < n
        invariant
            n == entries.len(),
            d == entry_views(entries@),
            i <= n,
            entry_index(d, key@, i as int) == i,
        decreases n - i,
    {
        assert(d[i as int] == entries@[i as int]@);
        if same_text(entries[i].key.as_str(), key) {
            proof {
                lemma_entry_index_stays(d, key@, i + 1, n as int);
            }
            return i;
        }
        i += 1;
    }
    n
}

/// Once an entry of the key is found, looking further finds the same.
pub proof fn lemma_entry_index_stays(entries: Seq<EntryView>, key: Seq<char>, from: int, upto: int)
    requires
        0 < from <= upto,
        entry_index(entries, key, from) < from,
    ensures
        entry_index(entries, key, upto) == entry_index(entries, key, from),
    decreases upto - from,
{
    if from < upto {
        lemma_entry_index_stays(entries, key, from, upto - 1);
    }
}

/// Puts `value` under `key`: in place of the value of the first entry of
/// that key, or in a new entry at the end.
pub fn set_entry(entries: &mut Vec<Entry>, key: &str, value: PdfObject)
    ensures
        entry_views(final(entries)@) == with_entry(entry_views(old(entries)@), key@, value@),
{
    let ghost d = entry_views(entries@);
    let k = find_entry(entries, key);
    if k < entries.len() {
        entries[k] = Entry { key: key.to_owned(), value };
        assert(entry_views(entries@) =~= d.update(
            k as int,
            EntryView { key: key@, value: value@ },
        ));
    } else {
        entries.push(Entry { key: key.to_owned(), value });
        assert(entry_views(entries@) =~= d.push(EntryView { key: key@, value: value@ }));
    }
}

/// Appends an entry to a dictionary under construction.
pub fn push_entry(entries: &mut Vec<Entry>, key: &str, value: PdfObject)
    ensures
        entry_views(final(entries)@) == entry_views(old(entries)@).push(
            EntryView { key: key@, value: value@ },
        ),
{
    let ghost d = entry_views(entries@);
    entries.push(Entry { key: key.to_owned(), value });
    assert(entry_views(entries@) =~= d.push(EntryView { key: key@, value: value@ }));
}

/// The name object of a text.
pub fn name(text: &str) -> (object: PdfObject)
    ensures
        object@ == ObjectView::Name(text@),
{
    PdfObject::Name(text.to_owned())
}

/// The literal string object of a text.
pub fn string_literal(text: &str) -> (object: PdfObject)
    ensures
        object@ == literal(text@),
{
    PdfObject::Text(text.as_bytes_vec(), StringFormat::Literal)
}

/// The array object of some items.
pub fn array(items: Vec<PdfObject>) -> (object: PdfObject)
    ensures
        object@ == ObjectView::Array(object_views(items@)),
{
    proof {
        lemma_array_view(items);
    }
    PdfObject::Array(items)
}

/// The dictionary object of some entries.
pub fn dictionary(entries: Vec<Entry>) -> (object: PdfObject)
    ensures
        object@ == ObjectView::Dictionary(entry_views(entries@)),
{
    proof {
        lemma_dictionary_view(entries);
    }
    PdfObject::Dictionary(entries)
}

/// The dictionary of some entries, as an object of its own number.
pub fn make_dictionary_object(entries: Vec<Entry>) -> (object: IndirectObject)
    ensures
        object@ == dictionary_object(entry_views(entries@)),
{
    IndirectObject::Value(dictionary(entries))
}

/// The stream of some bytes with an empty dictionary.
pub fn make_byte_stream(content: Vec<u8>) -> (object: IndirectObject)
    ensures
        object@ == byte_stream(content@),
{
    let object = IndirectObject::Stream { dict: Vec::new(), content };
    assert(object@->Stream_dict =~= Seq::empty());
    object
}

impl PdfDocument {
    /// A document without objects.
    pub fn new() -> (doc: PdfDocument)
        ensures
            doc@ == DocumentView::empty(),
    {
        let doc = PdfDocument { objects: Vec::new(), trailer: Vec::new() };
        assert(doc@.objects =~= Seq::empty());
        assert(doc@.trailer =~= Seq::empty());
        doc
    }

    /// Adds an object under the next free number and returns that number.
    pub fn add_object(&mut self, object: IndirectObject) -> (result: Result<ObjectId, PdfError>)
        ensures
            match result {
                Ok(id) => old(self)@.has_room() && id == old(self)@.next_id() && final(self)@
                    == old(self)@.add(object@),
                Err(e) => e == PdfError::Format && !old(self)@.has_room() && *final(self) == *old(
                    self,
                ),
            },
    {
        if self.objects.len() >= MAX_OBJECTS {
            return Err(PdfError::Format);
        }
        let id: u32 = (self.objects.len() + 1) as u32;
        self.objects.push(object);
        assert(self@.objects =~= old(self)@.objects.push(object@));
        Ok(id)
    }

    /// Takes the next free number for an object that is filled in later.
    pub fn new_object_id(&mut self) -> (result: Result<ObjectId, PdfError>)
        ensures
            match result {
                Ok(id) => old(self)@.has_room() && id == old(self)@.next_id() && final(self)@
                    == old(self)@.add(reserved()),
                Err(e) => e == PdfError::Format && !old(self)@.has_room() && *final(self) == *old(
                    self,
                ),
            },
    {
        self.add_object(IndirectObject::Value(PdfObject::Null))
    }

    /// Puts `object` in place of the object numbered `id`.
    pub fn set_object(&mut self, id: ObjectId, object: IndirectObject) -> (result: Result<
        (),
        PdfError,
    >)
        ensures
            match result {
                Ok(_) => old(self)@.has(id) && final(self)@ == old(self)@.put(id, object@),
                Err(e) => e == PdfError::Format && !old(self)@.has(id) && *final(self) == *old(
                    self,
                ),
            },
    {
        if id == 0 || id as usize > self.objects.len() {
            return Err(PdfError::Format);
        }
        self.objects[(id - 1) as usize] = object;
        assert(self@.objects =~= old(self)@.objects.update(id - 1, object@));
        Ok(())
    }

    /// Puts `value` under `key` in the trailer.
    pub fn set_trailer(&mut self, key: &str, value: PdfObject)
        ensures
            final(self)@ == (DocumentView {
                trailer: with_entry(old(self)@.trailer, key@, value@),
                ..old(self)@
            }),
    {
        set_entry(&mut self.trailer, key, value);
    }

    /// Where the list of pages stands in the page tree numbered `tree`, if
    /// that object is a page tree that can take another page.
    pub fn find_kids(&self, tree: ObjectId) -> (k: Option<usize>)
        ensures
            match k {
                Some(i) => self@.can_take_page(tree) && i == entry_index(
                    self@.entries(tree),
                    "Kids"@,
                    self@.entries(tree).len() as int,
                ) && i < self@.entries(tree).len(),
                None => !self@.can_take_page(tree),
            },
    {
        if tree == 0 || tree as usize > self.objects.len() {
            return None;
        }
        let index: usize = (tree - 1) as usize;
        assert(self@.objects[index as int] == self.objects@[index as int]@);
        match &self.objects[index] {
            IndirectObject::Value(PdfObject::Dictionary(entries)) => {
                proof {
                    lemma_dictionary_view(*entries);
                    lemma_lookup_index(entry_views(entries@), "Kids"@);
                }
                let k = find_entry(entries, "Kids");
                if k >= entries.len() {
                    return None;
                }
                assert(entry_views(entries@)[k as int] == entries@[k as int]@);
                match &entries[k].value {
                    PdfObject::Array(kids) => {
                        proof {
                            lemma_array_view(*kids);
                        }
                        if kids.len() < MAX_OBJECTS {
                            Some(k)
                        } else {
                            None
                        }
                    },
                    _ => None,
                }
            },
            _ => None,
        }
    }

    /// Appends `page` to the page tree numbered `tree` and records the new
    /// number of pages. The number is taken from the list before the page
    /// is appended.
    pub fn add_page_to_tree(&mut self, tree: ObjectId, page: ObjectId) -> (result: Result<
        (),
        PdfError,
    >)
        ensures
            match result {
                Ok(_) => old(self)@.can_take_page(tree) && final(self)@ == old(self)@.with_page(
                    tree,
                    page,
                ),
                Err(e) => e == PdfError::Format && !old(self)@.can_take_page(tree) && *final(self)
                    == *old(self),
            },
    {
        let k = match self.find_kids(tree) {
            Some(k) => k,
            None => {
                return Err(PdfError::Format);
            },
        };
        let index: usize = (tree - 1) as usize;
        let ghost before = self@;
        let ghost d = before.entries(tree);
        let ghost old_kids = before.kids(tree);
        assert(self@.objects[index as int] == self.objects@[index as int]@);
        let taken = self.objects.remove(index);
        match taken {
            IndirectObject::Value(PdfObject::Dictionary(mut entries)) => {
                proof {
                    lemma_dictionary_view(entries);
                    lemma_lookup_index(d, "Kids"@);
                    assert(entry_views(entries@) == d);
                    assert(d[k as int] == entries@[k as int]@);
                }
                let ghost whole = entries@;
                let entry = entries.remove(k);
                proof {
                    lemma_entry_index(d, "Kids"@, d.len() as int);
                    assert(entry == whole[k as int]);
                    assert(entry.key@ == "Kids"@);
                }
                match entry.value {
                    PdfObject::Array(mut kids) => {
                        proof {
                            lemma_array_view(kids);
                            assert(object_views(kids@) == old_kids);
                        }
                        let count: i64 = (kids.len() + 1) as i64;
                        kids.push(PdfObject::Reference(page));
                        assert(object_views(kids@) =~= old_kids.push(ObjectView::Reference(page)));
                        let renewed = Entry { key: entry.key, value: array(kids) };
                        let ghost renewed_view = renewed@;
                        entries.insert(k, renewed);
                        assert(entries@ =~= whole.update(k as int, renewed));
                        assert(entry_views(entries@) =~= d.update(k as int, renewed_view));
                        assert(entry_views(entries@) =~= with_entry(
                            d,
                            "Kids"@,
                            ObjectView::Array(old_kids.push(ObjectView::Reference(page))),
                        ));
                        set_entry(&mut entries, "Count", PdfObject::Integer(count));
                        self.objects.insert(index, IndirectObject::Value(dictionary(entries)));
                        assert(self@.objects =~= before.with_page(tree, page).objects);
                        assert(self@.trailer == before.trailer);
                    },
                    _ => {
                        assert(false);
                    },
                }
            },
            _ => {
                assert(false);
            },
        }
        Ok(())
    }

    /// The number of pages in the list of the page tree numbered `tree`:
    /// none where the object is no dictionary.
    pub fn get_page_count(&self, tree: ObjectId) -> (result: Result<usize, PdfError>)
        ensures
            match result {
                Ok(n) => if self@.is_page_tree(tree) {
                    n == self@.kids(tree).len()
                } else {
                    self@.has(tree) && !self@.is_dictionary(tree) && n == 0
                },
                Err(e) => e == PdfError::Format && !self@.is_page_tree(tree) && (self@.has(tree)
                    ==> self@.is_dictionary(tree)),
            },
    {
        if tree == 0 || tree as usize > self.objects.len() {
            return Err(PdfError::Format);
        }
        let index: usize = (tree - 1) as usize;
        assert(self@.objects[index as int] == self.objects@[index as int]@);
        match &self.objects[index] {
            IndirectObject::Value(PdfObject::Dictionary(entries)) => {
                proof {
                    lemma_dictionary_view(*entries);
                    lemma_lookup_index(entry_views(entries@), "Kids"@);
                }
                let k = find_entry(entries, "Kids");
                if k >= entries.len() {
                    return Err(PdfError::Format);
                }
                assert(entry_views(entries@)[k as int] == entries@[k as int]@);
                match &entries[k].value {
                    PdfObject::Array(kids) => {
                        proof {
                            lemma_array_view(*kids);
                        }
                        Ok(kids.len())
                    },
                    _ => Err(PdfError::Format),
                }
            },
            _ => Ok(0),
        }
    }
}

} // verus!
