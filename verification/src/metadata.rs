//! The note model: what one flashcard-producing record looks like once it has
//! been extracted from the document, and when two such records count as the
//! same note.

use vstd::prelude::*;

use crate::text::str_eq;

verus! {

/// One named value within a note, as authored in the document.
#[derive(Debug, Clone)]
pub enum Field {
    /// Literal text, already resolved.
    Raw(String),
    /// Literal text, kept apart for formatting-aware handling.
    Plain { plain: String },
    /// Text plus an inclusive range of compiled pages to embed as images.
    Content { content: String, page_start: usize, page_end: usize },
    /// Serializes as empty text.
    Empty,
}

/// Mathematical model of a `Field`.
pub enum FieldV {
    Raw(Seq<char>),
    Plain(Seq<char>),
    Content { content: Seq<char>, page_start: nat, page_end: nat },
    Empty,
}

impl View for Field {
    type V = FieldV;

    open spec fn view(&self) -> FieldV {
        match self {
            Field::Raw(v) => FieldV::Raw(v@),
            Field::Plain { plain } => FieldV::Plain(plain@),
            Field::Content { content, page_start, page_end } => FieldV::Content {
                content: content@,
                page_start: *page_start as nat,
                page_end: *page_end as nat,
            },
            Field::Empty => FieldV::Empty,
        }
    }
}

impl FieldV {
    /// The display text of a field: what it resolves to when no rendering is
    /// involved, and the accessibility label when it is.
    pub open spec fn text(self) -> Seq<char> {
        match self {
            FieldV::Raw(v) => v,
            FieldV::Plain(v) => v,
            FieldV::Content { content, .. } => content,
            FieldV::Empty => Seq::<char>::empty(),
        }
    }

    /// A content page range must not be reversed.
    pub open spec fn wf(self) -> bool {
        match self {
            FieldV::Content { page_start, page_end, .. } => page_start <= page_end,
            _ => true,
        }
    }
}

impl Field {
    /// The display text of the field.
    pub fn text(&self) -> (r: String)
        ensures
            r@ == self@.text(),
    {
        match self {
            Field::Raw(v) => v.clone(),
            Field::Plain { plain } => plain.clone(),
            Field::Content { content, .. } => content.clone(),
            Field::Empty => String::new(),
        }
    }
}

impl Field {
    /// A copy whose model is the same; the derived `Clone` carries no
    /// specification, so copying is spelled out.
    pub fn duplicate(&self) -> (r: Field)
        ensures
            r@ == self@,
    {
        match self {
            Field::Raw(v) => Field::Raw(v.clone()),
            Field::Plain { plain } => Field::Plain { plain: plain.clone() },
            Field::Content { content, page_start, page_end } => Field::Content {
                content: content.clone(),
                page_start: *page_start,
                page_end: *page_end,
            },
            Field::Empty => Field::Empty,
        }
    }
}

/// A document-side note: where it goes, what schema it uses, and its values.
#[derive(Debug, Clone)]
pub struct Note {
    /// External identifier; absent for notes newly authored in the document.
    pub id: Option<String>,
    /// Hierarchical deck path, `::`-separated.
    pub deck: String,
    /// Note-type (schema) name.
    pub model: String,
    /// Field name / value pairs, in authoring order.
    pub fields: Vec<(String, Field)>,
    pub tags: Vec<String>,
}

/// Mathematical model of a `Note`.
pub struct NoteV {
    pub id: Option<Seq<char>>,
    pub deck: Seq<char>,
    pub model: Seq<char>,
    pub fields: Seq<(Seq<char>, FieldV)>,
    pub tags: Seq<Seq<char>>,
}

impl View for Note {
    type V = NoteV;

    open spec fn view(&self) -> NoteV {
        NoteV {
            id: match self.id {
                Some(s) => Some(s@),
                None => None,
            },
            deck: self.deck@,
            model: self.model@,
            fields: self.fields@.map_values(|p: (String, Field)| (p.0@, p.1@)),
            tags: self.tags@.map_values(|t: String| t@),
        }
    }
}

impl Note {
    /// A copy whose model is the same; the derived `Clone` carries no
    /// specification, so copying is spelled out.
    pub fn duplicate(&self) -> (r: Note)
        ensures
            r@ == self@,
    {
        let id = match &self.id {
            Some(s) => Some(s.clone()),
            None => None,
        };
        let mut fields: Vec<(String, Field)> = Vec::new();
        let mut i: usize = 0;
        while i < self.fields.len()
            invariant
                i <= self.fields@.len(),
                fields@.len() == i,
                forall|k: int|
                    0 <= k < i ==> (#[trigger] fields@[k]).0@ == self.fields@[k].0@ && fields@[k].1@
                        == self.fields@[k].1@,
            decreases self.fields@.len() - i,
        {
            fields.push((self.fields[i].0.clone(), self.fields[i].1.duplicate()));
            i += 1;
        }
        let mut tags: Vec<String> = Vec::new();
        let mut j: usize = 0;
        while j < self.tags.len()
            invariant
                j <= self.tags@.len(),
                tags@.len() == j,
                forall|k: int| 0 <= k < j ==> (#[trigger] tags@[k])@ == self.tags@[k]@,
            decreases self.tags@.len() - j,
        {
            tags.push(self.tags[j].clone());
            j += 1;
        }
        let r = Note { id, deck: self.deck.clone(), model: self.model.clone(), fields, tags };
        proof {
            assert(r@.fields =~= self@.fields);
            assert(r@.tags =~= self@.tags);
        }
        r
    }
}

impl NoteV {
    /// Every content page range is in order: the data-model invariant of
    /// paginated fields, which callers of the renderer must establish.
    pub open spec fn ranges_wf(self) -> bool {
        forall|i: int| 0 <= i < self.fields.len() ==> (#[trigger] self.fields[i].1).wf()
    }

    /// Field names are unique and every content page range is in order.
    pub open spec fn wf(self) -> bool {
        &&& forall|i: int, j: int|
            0 <= i < j < self.fields.len() ==> #[trigger] self.fields[i].0 != #[trigger] self.fields[j].0
        &&& self.ranges_wf()
    }
}

/// The tags of a note, as a set: tag order never matters for note identity.
pub open spec fn tag_set(tags: Seq<Seq<char>>) -> Set<Seq<char>> {
    tags.to_set()
}

/// The (name, display text) pairs of a note's fields whose display text is
/// non-empty, as a set.
pub open spec fn field_pair_set(fields: Seq<(Seq<char>, FieldV)>) -> Set<(Seq<char>, Seq<char>)> {
    Set::new(
        |p: (Seq<char>, Seq<char>)|
            p.1.len() > 0 && exists|i: int|
                0 <= i < fields.len() && (#[trigger] fields[i]).0 == p.0 && fields[i].1.text() == p.1,
    )
}

/// Two notes are the same note exactly when deck, model, tag set and the set
/// of non-empty resolved field texts agree. Identifiers are deliberately
/// excluded: a note may be re-synchronized under a new id.
pub open spec fn note_equal(a: NoteV, b: NoteV) -> bool {
    &&& a.deck == b.deck
    &&& a.model == b.model
    &&& tag_set(a.tags) == tag_set(b.tags)
    &&& field_pair_set(a.fields) == field_pair_set(b.fields)
}

/// Both notes carry an id and the ids differ.
pub open spec fn id_mismatch(a: NoteV, b: NoteV) -> bool {
    a.id is Some && b.id is Some && a.id.unwrap() != b.id.unwrap()
}

/// Note identity never looks at the id fields.
pub proof fn lemma_note_equal_ignores_id(a: NoteV, b: NoteV, ida: Option<Seq<char>>, idb: Option<Seq<char>>)
    ensures
        note_equal(a, b) == note_equal(NoteV { id: ida, ..a }, NoteV { id: idb, ..b }),
{
}

spec fn has_tag(b: Seq<String>, t: Seq<char>) -> bool {
    exists|j: int| 0 <= j < b.len() && (#[trigger] b[j])@ == t
}

spec fn has_field_pair(b: Seq<(String, Field)>, name: Seq<char>, text: Seq<char>) -> bool {
    exists|j: int| 0 <= j < b.len() && (#[trigger] b[j]).0@ == name && b[j].1@.text() == text
}

fn string_in(v: &Vec<String>, x: &String) -> (r: bool)
    ensures
        r == has_tag(v@, x@),
{
    let mut i: usize = 0;
    while i < v.len()
        invariant
            i <= v@.len(),
            forall|k: int| 0 <= k < i ==> (#[trigger] v@[k])@ != x@,
        decreases v@.len() - i,
    {
        if str_eq(v[i].as_str(), x.as_str()) {
            return true;
        }
        i += 1;
    }
    false
}

fn tags_subset(a: &Vec<String>, b: &Vec<String>) -> (r: bool)
    ensures
        r == forall|i: int| 0 <= i < a@.len() ==> #[trigger] has_tag(b@, a@[i]@),
{
    let mut i: usize = 0;
    while i < a.len()
        invariant
            i <= a@.len(),
            forall|k: int| 0 <= k < i ==> #[trigger] has_tag(b@, a@[k]@),
        decreases a@.len() - i,
    {
        if !string_in(b, &a[i]) {
            return false;
        }
        i += 1;
    }
    true
}

proof fn lemma_tag_sets_equal(a: Seq<String>, b: Seq<String>)
    requires
        forall|i: int| 0 <= i < a.len() ==> #[trigger] has_tag(b, a[i]@),
        forall|i: int| 0 <= i < b.len() ==> #[trigger] has_tag(a, b[i]@),
    ensures
        tag_set(a.map_values(|t: String| t@)) == tag_set(b.map_values(|t: String| t@)),
{
    let av = a.map_values(|t: String| t@);
    let bv = b.map_values(|t: String| t@);
    assert forall|x: Seq<char>| av.to_set().contains(x) implies bv.to_set().contains(x) by {
        let i = choose|i: int| 0 <= i < av.len() && av[i] == x;
        assert(has_tag(b, a[i]@));
        let j = choose|j: int| 0 <= j < b.len() && (#[trigger] b[j])@ == a[i]@;
        assert(bv[j] == x);
    }
    assert forall|x: Seq<char>| bv.to_set().contains(x) implies av.to_set().contains(x) by {
        let i = choose|i: int| 0 <= i < bv.len() && bv[i] == x;
        assert(has_tag(a, b[i]@));
        let j = choose|j: int| 0 <= j < a.len() && (#[trigger] a[j])@ == b[i]@;
        assert(av[j] == x);
    }
    assert(av.to_set() =~= bv.to_set());
}

fn field_pair_in(fields: &Vec<(String, Field)>, name: &String, text: &String) -> (r: bool)
    ensures
        r == has_field_pair(fields@, name@, text@),
{
    let mut i: usize = 0;
    while i < fields.len()
        invariant
            i <= fields@.len(),
            forall|k: int|
                0 <= k < i ==> !((#[trigger] fields@[k]).0@ == name@ && fields@[k].1@.text() == text@),
        decreases fields@.len() - i,
    {
        if str_eq(fields[i].0.as_str(), name.as_str()) {
            let t = fields[i].1.text();
            if str_eq(t.as_str(), text.as_str()) {
                return true;
            }
        }
        i += 1;
    }
    false
}

fn fields_subset(a: &Vec<(String, Field)>, b: &Vec<(String, Field)>) -> (r: bool)
    ensures
        r == forall|i: int|
            0 <= i < a@.len() ==> ((#[trigger] a@[i]).1@.text().len() == 0
                || has_field_pair(b@, a@[i].0@, a@[i].1@.text())),
{
    let mut i: usize = 0;
    while i < a.len()
        invariant
            i <= a@.len(),
            forall|k: int|
                0 <= k < i ==> ((#[trigger] a@[k]).1@.text().len() == 0
                    || has_field_pair(b@, a@[k].0@, a@[k].1@.text())),
        decreases a@.len() - i,
    {
        let t = a[i].1.text();
        if !t.as_str().is_empty() {
            if !field_pair_in(b, &a[i].0, &t) {
                return false;
            }
        }
        i += 1;
    }
    true
}

proof fn lemma_field_pair_sets_equal(a: Seq<(String, Field)>, b: Seq<(String, Field)>)
    requires
        forall|i: int|
            0 <= i < a.len() ==> ((#[trigger] a[i]).1@.text().len() == 0
                || has_field_pair(b, a[i].0@, a[i].1@.text())),
        forall|i: int|
            0 <= i < b.len() ==> ((#[trigger] b[i]).1@.text().len() == 0
                || has_field_pair(a, b[i].0@, b[i].1@.text())),
    ensures
        field_pair_set(a.map_values(|p: (String, Field)| (p.0@, p.1@)))
            == field_pair_set(b.map_values(|p: (String, Field)| (p.0@, p.1@))),
{
    let av = a.map_values(|p: (String, Field)| (p.0@, p.1@));
    let bv = b.map_values(|p: (String, Field)| (p.0@, p.1@));
    assert forall|x: (Seq<char>, Seq<char>)|
        field_pair_set(av).contains(x) implies field_pair_set(bv).contains(x) by {
        let i = choose|i: int| 0 <= i < av.len() && (#[trigger] av[i]).0 == x.0 && av[i].1.text() == x.1;
        assert(a[i].1@.text() == x.1);
        assert(has_field_pair(b, a[i].0@, a[i].1@.text()));
        let j = choose|j: int|
            0 <= j < b.len() && (#[trigger] b[j]).0@ == a[i].0@ && b[j].1@.text() == a[i].1@.text();
        assert((#[trigger] bv[j]).0 == x.0 && bv[j].1.text() == x.1);
    }
    assert forall|x: (Seq<char>, Seq<char>)|
        field_pair_set(bv).contains(x) implies field_pair_set(av).contains(x) by {
        let i = choose|i: int| 0 <= i < bv.len() && (#[trigger] bv[i]).0 == x.0 && bv[i].1.text() == x.1;
        assert(b[i].1@.text() == x.1);
        assert(has_field_pair(a, b[i].0@, b[i].1@.text()));
        let j = choose|j: int|
            0 <= j < a.len() && (#[trigger] a[j]).0@ == b[i].0@ && a[j].1@.text() == b[i].1@.text();
        assert((#[trigger] av[j]).0 == x.0 && av[j].1.text() == x.1);
    }
    assert(field_pair_set(av) =~= field_pair_set(bv));
}

proof fn lemma_tag_subset_fails(a: Seq<String>, b: Seq<String>)
    requires
        !(forall|i: int| 0 <= i < a.len() ==> #[trigger] has_tag(b, a[i]@)),
    ensures
        tag_set(a.map_values(|t: String| t@)) != tag_set(b.map_values(|t: String| t@)),
{
    let av = a.map_values(|t: String| t@);
    let bv = b.map_values(|t: String| t@);
    let i = choose|i: int| 0 <= i < a.len() && !(#[trigger] has_tag(b, a[i]@));
    assert(av[i] == a[i]@);
    assert(av.to_set().contains(a[i]@));
    if bv.to_set().contains(a[i]@) {
        let j = choose|j: int| 0 <= j < bv.len() && bv[j] == a[i]@;
        assert((#[trigger] b[j])@ == a[i]@);
        assert(has_tag(b, a[i]@));
    }
    assert(!bv.to_set().contains(a[i]@));
}

proof fn lemma_field_subset_fails(a: Seq<(String, Field)>, b: Seq<(String, Field)>)
    requires
        !(forall|i: int|
            0 <= i < a.len() ==> ((#[trigger] a[i]).1@.text().len() == 0
                || has_field_pair(b, a[i].0@, a[i].1@.text()))),
    ensures
        field_pair_set(a.map_values(|p: (String, Field)| (p.0@, p.1@)))
            != field_pair_set(b.map_values(|p: (String, Field)| (p.0@, p.1@))),
{
    let av = a.map_values(|p: (String, Field)| (p.0@, p.1@));
    let bv = b.map_values(|p: (String, Field)| (p.0@, p.1@));
    let i = choose|i: int|
        0 <= i < a.len() && !((#[trigger] a[i]).1@.text().len() == 0
            || has_field_pair(b, a[i].0@, a[i].1@.text()));
    let x = (a[i].0@, a[i].1@.text());
    assert((#[trigger] av[i]).0 == x.0 && av[i].1.text() == x.1);
    assert(field_pair_set(av).contains(x));
    if field_pair_set(bv).contains(x) {
        let j = choose|j: int|
            0 <= j < bv.len() && (#[trigger] bv[j]).0 == x.0 && bv[j].1.text() == x.1;
        assert((#[trigger] b[j]).0@ == x.0 && b[j].1@.text() == x.1);
        assert(has_field_pair(b, a[i].0@, a[i].1@.text()));
    }
    assert(!field_pair_set(bv).contains(x));
}

/// Decides `note_equal` on two notes.
pub fn note_eq(a: &Note, b: &Note) -> (r: bool)
    ensures
        r == note_equal(a@, b@),
{
    if !str_eq(a.deck.as_str(), b.deck.as_str()) {
        return false;
    }
    if !str_eq(a.model.as_str(), b.model.as_str()) {
        return false;
    }
    let tags_ab = tags_subset(&a.tags, &b.tags);
    if !tags_ab {
        proof {
            lemma_tag_subset_fails(a.tags@, b.tags@);
        }
        return false;
    }
    let tags_ba = tags_subset(&b.tags, &a.tags);
    if !tags_ba {
        proof {
            lemma_tag_subset_fails(b.tags@, a.tags@);
        }
        return false;
    }
    let fields_ab = fields_subset(&a.fields, &b.fields);
    if !fields_ab {
        proof {
            lemma_field_subset_fails(a.fields@, b.fields@);
        }
        return false;
    }
    let fields_ba = fields_subset(&b.fields, &a.fields);
    if !fields_ba {
        proof {
            lemma_field_subset_fails(b.fields@, a.fields@);
        }
        return false;
    }
    proof {
        lemma_tag_sets_equal(a.tags@, b.tags@);
        lemma_field_pair_sets_equal(a.fields@, b.fields@);
    }
    true
}

/// A note paired with the numeric id the application assigned, if any, and a
/// display string for diagnostics; tracks notes already present remotely.
#[derive(Debug, Clone)]
pub struct NoteWithInfo {
    pub note: Note,
    pub id: Option<usize>,
    pub question: Option<String>,
}

/// The verdict of holding a tracked note against a freshly extracted one.
#[derive(Debug, Clone, Copy, PartialEq, Eq, Structural)]
pub enum NoteMatch {
    /// The notes differ in deck, model, tag set or field texts.
    Distinct,
    /// The notes are the same note.
    Equal,
    /// The notes are the same note, yet both carry an id and the ids differ:
    /// an anomaly to report, never a failure.
    EqualIdMismatch,
}

impl NoteWithInfo {
    /// Compares the tracked note with `other`, flagging an id mismatch
    /// between otherwise-equal notes instead of accepting it silently.
    pub fn check_against(&self, other: &Note) -> (r: NoteMatch)
        ensures
            (r is Distinct) == !note_equal(self.note@, other@),
            (r is EqualIdMismatch) == (note_equal(self.note@, other@) && id_mismatch(self.note@, other@)),
            (r is Equal) == (note_equal(self.note@, other@) && !id_mismatch(self.note@, other@)),
    {
        if !note_eq(&self.note, other) {
            return NoteMatch::Distinct;
        }
        match (&self.note.id, &other.id) {
            (Some(x), Some(y)) => {
                if !str_eq(x.as_str(), y.as_str()) {
                    NoteMatch::EqualIdMismatch
                } else {
                    NoteMatch::Equal
                }
            },
            _ => NoteMatch::Equal,
        }
    }
}

/// One record extracted by the compiler's query mode.
#[derive(Debug, Clone)]
pub struct InnerMetadata {
    /// Discriminator; must be the literal `metadata`.
    pub func: String,
    pub value: Note,
    /// Must be the fixed export label.
    pub label: String,
}

/// Everything the compiler's query mode extracted from one document.
#[derive(Debug, Clone)]
pub struct Metadata(pub Vec<InnerMetadata>);

/// A malformed extracted record, naming the offending value.
#[derive(Debug, Clone)]
pub enum MetadataError {
    /// The discriminator field was not the literal `metadata`.
    BadFunc(String),
    /// The label was not the fixed export label.
    BadLabel(String),
}

impl InnerMetadata {
    /// The record carries the discriminator and label this tool exports.
    pub open spec fn valid(&self) -> bool {
        self.func@ == "metadata"@ && self.label@ == "<anki-export>"@
    }

    /// Rejects a record whose discriminator or label is foreign.
    pub fn validate(&self) -> (r: Result<(), MetadataError>)
        ensures
            (r is Ok) == self.valid(),
            self.func@ != "metadata"@ ==> (r matches Err(MetadataError::BadFunc(f)) && f@ == self.func@),
            self.func@ == "metadata"@ && self.label@ != "<anki-export>"@
                ==> (r matches Err(MetadataError::BadLabel(l)) && l@ == self.label@),
    {
        if !str_eq(self.func.as_str(), "metadata") {
            return Err(MetadataError::BadFunc(self.func.clone()));
        }
        if !str_eq(self.label.as_str(), "<anki-export>") {
            return Err(MetadataError::BadLabel(self.label.clone()));
        }
        Ok(())
    }
}

impl Metadata {
    /// Every extracted record is well formed.
    pub open spec fn spec_valid(&self) -> bool {
        forall|i: int| 0 <= i < self.0@.len() ==> (#[trigger] self.0@[i]).valid()
    }

    /// Rejects the first malformed record, if any.
    pub fn validate(&self) -> (r: Result<(), MetadataError>)
        ensures
            (r is Ok) == self.spec_valid(),
            r matches Err(e) ==> exists|i: int|
                0 <= i < self.0@.len() && !(#[trigger] self.0@[i]).valid()
                    && (forall|k: int| 0 <= k < i ==> (#[trigger] self.0@[k]).valid())
                    && ((self.0@[i].func@ != "metadata"@ && (e matches MetadataError::BadFunc(f)
                        && f@ == self.0@[i].func@))
                    || (self.0@[i].func@ == "metadata"@ && (e matches MetadataError::BadLabel(l)
                        && l@ == self.0@[i].label@))),
    {
        let mut i: usize = 0;
        while i < self.0.len()
            invariant
                i <= self.0@.len(),
                forall|k: int| 0 <= k < i ==> (#[trigger] self.0@[k]).valid(),
            decreases self.0@.len() - i,
        {
            match self.0[i].validate() {
                Ok(_) => {},
                Err(e) => {
                    return Err(e);
                },
            }
            i += 1;
        }
        Ok(())
    }
}

} // verus!
