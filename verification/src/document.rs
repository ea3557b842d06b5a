//! Fluent and Rust source files, the parse of a Fluent file, and the
//! document gathered from all Fluent files of one locale.
use vstd::prelude::*;
use crate::assoc::{keys, lookup};
use crate::definitions::{all_identifiers_of, definitions_wf, duplicate_identifiers_of, identifiers_view, invalid_references_of, is_duplicate, is_invalid_reference, walk_definitions, Definitions, DefinitionsModel, Signature};
use crate::error::{ErrorModel, LingoraError};
use crate::identifier::{QualifiedIdentifier, SegmentModel};
use crate::locale::{locale_of_path, root_of, LanguageRoot, Locale, LocaleModel};
use crate::paths::{extension_of, has_extension};
use crate::text::views;
use crate::walk::{append_events, events_view, fluent_entry_walks, parse_entry_walks, walks_view, EventModel, WalkEvent};

verus! {

/// A file path with the locale it is named after.
pub struct FileModel {
    pub path: Seq<char>,
    pub locale: LocaleModel,
}

/// A Fluent translation file (`.ftl`) with the locale its name, or the name
/// of an enclosing folder, gives.
pub struct FluentFile {
    path: String,
    locale: Locale,
}

impl View for FluentFile {
    type V = FileModel;

    closed spec fn view(&self) -> FileModel {
        FileModel { path: self.path@, locale: self.locale@ }
    }
}

/// What a path gives as a Fluent file: it must be an existing file with the
/// extension `ftl`, and name a locale.
pub open spec fn fluent_file_from(path: Seq<char>, is_file: bool) -> Result<FileModel, ErrorModel> {
    if is_file && extension_of(path) == Some("ftl"@) {
        match locale_of_path(path) {
            Some(l) => Ok(FileModel { path, locale: l }),
            None => Err(ErrorModel::InvalidLocale("No valid locale found in path: "@ + path)),
        }
    } else {
        Err(ErrorModel::InvalidFluentPath(path))
    }
}

impl FluentFile {
    /// The Fluent file at `path`; `is_file` tells whether the path is an
    /// existing file.
    pub fn try_from_path(path: &str, is_file: bool) -> (res: Result<FluentFile, LingoraError>)
        ensures
            match res {
                Ok(f) => fluent_file_from(path@, is_file) == Ok::<FileModel, ErrorModel>(f@),
                Err(e) => fluent_file_from(path@, is_file) == Err::<FileModel, ErrorModel>(e@),
            },
    {
        if is_file && has_extension(path, "ftl") {
            match Locale::try_from_path(path) {
                Ok(locale) => Ok(FluentFile { path: String::from_str(path), locale }),
                Err(e) => Err(e),
            }
        } else {
            Err(LingoraError::InvalidFluentPath(String::from_str(path)))
        }
    }

    /// The path of the file.
    pub fn path(&self) -> (res: &String)
        ensures
            res@ == self@.path,
    {
        &self.path
    }

    /// The locale of the file.
    pub fn locale(&self) -> (res: &Locale)
        ensures
            res@ == self@.locale,
    {
        &self.locale
    }

    /// The language root of the file's locale.
    pub fn language_root(&self) -> (res: LanguageRoot)
        ensures
            res@ == root_of(self@.locale),
    {
        self.locale.language_root()
    }

    /// A copy of this file.
    pub fn copy(&self) -> (res: FluentFile)
        ensures
            res@ == self@,
    {
        FluentFile { path: self.path.clone(), locale: self.locale.copy() }
    }
}

/// A Rust source file (`.rs`) that may use the `dioxus_i18n` macros.
pub struct RustFile {
    path: String,
}

impl View for RustFile {
    type V = Seq<char>;

    closed spec fn view(&self) -> Seq<char> {
        self.path@
    }
}

/// What a path gives as a Rust file: it must be an existing file with the
/// extension `rs`.
pub open spec fn rust_file_from(path: Seq<char>, is_file: bool) -> Result<Seq<char>, ErrorModel> {
    if is_file && extension_of(path) == Some("rs"@) {
        Ok(path)
    } else {
        Err(ErrorModel::InvalidRustPath(path))
    }
}

impl RustFile {
    /// The Rust file at `path`; `is_file` tells whether the path is an
    /// existing file.
    pub fn try_from_path(path: &str, is_file: bool) -> (res: Result<RustFile, LingoraError>)
        ensures
            match res {
                Ok(f) => rust_file_from(path@, is_file) == Ok::<Seq<char>, ErrorModel>(f@),
                Err(e) => rust_file_from(path@, is_file) == Err::<Seq<char>, ErrorModel>(e@),
            },
    {
        if is_file && has_extension(path, "rs") {
            Ok(RustFile { path: String::from_str(path) })
        } else {
            Err(LingoraError::InvalidRustPath(String::from_str(path)))
        }
    }

    /// The path of the file.
    pub fn path(&self) -> (res: &String)
        ensures
            res@ == self@,
    {
        &self.path
    }

    /// A copy of this file.
    pub fn copy(&self) -> (res: RustFile)
        ensures
            res@ == self@,
    {
        RustFile { path: self.path.clone() }
    }
}

/// A Fluent file with the outcome of parsing its text: for each entry, the
/// events of a walk over it; or the parser's error.
pub struct ParsedModel {
    pub file: FileModel,
    pub walks: Result<Seq<Seq<EventModel>>, Seq<char>>,
}

/// A Fluent file and the outcome of parsing its text.
pub struct ParsedFluentFile {
    file: FluentFile,
    walks: Result<Vec<Vec<WalkEvent>>, String>,
}

/// The view of a parse outcome.
pub open spec fn outcome_view(r: Result<Vec<Vec<WalkEvent>>, String>) -> Result<Seq<Seq<EventModel>>, Seq<char>> {
    match r {
        Ok(w) => Ok(walks_view(w@)),
        Err(e) => Err(e@),
    }
}

impl View for ParsedFluentFile {
    type V = ParsedModel;

    closed spec fn view(&self) -> ParsedModel {
        ParsedModel { file: self.file@, walks: outcome_view(self.walks) }
    }
}

/// The views of a sequence of parsed files.
pub open spec fn parsed_view(files: Seq<ParsedFluentFile>) -> Seq<ParsedModel> {
    files.map_values(|f: ParsedFluentFile| f@)
}

/// The text describing a parse failure; empty when the parse succeeded.
pub open spec fn error_description_of(p: ParsedModel) -> Seq<char> {
    match p.walks {
        Ok(_) => Seq::empty(),
        Err(e) => e,
    }
}

impl ParsedFluentFile {
    /// Parses `content`, the text of `file`.
    pub fn from_content(file: &FluentFile, content: &str) -> (res: ParsedFluentFile)
        ensures
            res@ == (ParsedModel { file: file@, walks: fluent_entry_walks(content@) }),
    {
        ParsedFluentFile { file: file.copy(), walks: parse_entry_walks(content) }
    }

    /// The parsed file.
    pub fn fluent_file(&self) -> (res: &FluentFile)
        ensures
            res@ == self@.file,
    {
        &self.file
    }

    /// The path of the parsed file.
    pub fn path(&self) -> (res: &String)
        ensures
            res@ == self@.file.path,
    {
        self.file.path()
    }

    /// The locale of the parsed file.
    pub fn locale(&self) -> (res: &Locale)
        ensures
            res@ == self@.file.locale,
    {
        self.file.locale()
    }

    /// The walks of the entries, when the text parsed.
    pub fn resource(&self) -> (res: Option<&Vec<Vec<WalkEvent>>>)
        ensures
            match res {
                Some(w) => self@.walks == Ok::<Seq<Seq<EventModel>>, Seq<char>>(walks_view(w@)),
                None => self@.walks is Err,
            },
    {
        match &self.walks {
            Ok(w) => Some(w),
            Err(_) => None,
        }
    }

    /// The parser's error text, or the empty text when the parse succeeded.
    pub fn error_description(&self) -> (res: String)
        ensures
            res@ == error_description_of(self@),
    {
        match &self.walks {
            Ok(_) => String::new(),
            Err(e) => e.clone(),
        }
    }
}

/// The events of walking one entry as an item of a resource: the item is
/// entered, the entry walked, and the item left.
pub open spec fn item_events(w: Seq<EventModel>) -> Seq<EventModel> {
    seq![EventModel::Enter] + w + seq![EventModel::Exit]
}

/// The events of walking a sequence of entries as items.
pub open spec fn items_events(ws: Seq<Seq<EventModel>>) -> Seq<EventModel>
    decreases ws.len(),
{
    if ws.len() == 0 {
        Seq::empty()
    } else {
        items_events(ws.drop_last()) + item_events(ws.last())
    }
}

/// Walking the items of two sequences one after the other.
pub proof fn lemma_items_events_append(a: Seq<Seq<EventModel>>, b: Seq<Seq<EventModel>>)
    ensures
        items_events(a + b) == items_events(a) + items_events(b),
    decreases b.len(),
{
    if b.len() == 0 {
        assert(a + b =~= a);
        assert(items_events(b) =~= Seq::<EventModel>::empty());
        assert(items_events(a) + items_events(b) =~= items_events(a));
    } else {
        lemma_items_events_append(a, b.drop_last());
        assert((a + b).drop_last() =~= a + b.drop_last());
        assert((a + b).last() == b.last());
        assert(items_events(a) + items_events(b) =~= (items_events(a) + items_events(b.drop_last())) + item_events(b.last()));
    }
}

/// The entry walks of those `files` of locale `l` that parsed, in order.
pub open spec fn locale_entry_walks(l: LocaleModel, files: Seq<ParsedModel>) -> Seq<Seq<EventModel>>
    decreases files.len(),
{
    if files.len() == 0 {
        Seq::empty()
    } else {
        let rest = locale_entry_walks(l, files.drop_last());
        let f = files.last();
        match f.walks {
            Ok(w) => if f.file.locale == l { rest + w } else { rest },
            Err(_) => rest,
        }
    }
}

/// The walk of the resource made of the entries of all the files of locale
/// `l` that parsed.
pub open spec fn document_events(l: LocaleModel, files: Seq<ParsedModel>) -> Seq<EventModel> {
    seq![EventModel::Enter] + items_events(locale_entry_walks(l, files)) + seq![EventModel::Exit]
}

/// A document: its locale, the walk of its entries, and what that walk
/// defines and references.
pub struct DocumentModel {
    pub locale: LocaleModel,
    pub events: Seq<EventModel>,
    pub definitions: DefinitionsModel,
}

/// All the Fluent translations for one locale, gathered from the entries of
/// every file of that locale that parsed.
pub struct FluentDocument {
    locale: Locale,
    events: Vec<WalkEvent>,
    definitions: Definitions,
}

impl View for FluentDocument {
    type V = DocumentModel;

    closed spec fn view(&self) -> DocumentModel {
        DocumentModel {
            locale: self.locale@,
            events: events_view(self.events@),
            definitions: self.definitions@,
        }
    }
}

/// A document is consistent: its definitions are those of its walk.
pub open spec fn document_wf(d: DocumentModel) -> bool {
    d.definitions == walk_definitions(d.events) && definitions_wf(d.definitions)
}

impl FluentDocument {
    #[verifier::type_invariant]
    spec fn consistent(self) -> bool {
        document_wf(self@)
    }

    /// The document of `locale`, made of the entries of every file of that
    /// locale that parsed, in file order.
    pub fn from_parsed_files(locale: &Locale, files: &Vec<ParsedFluentFile>) -> (res: FluentDocument)
        ensures
            res@.locale == locale@,
            res@.events == document_events(locale@, parsed_view(files@)),
            res@.definitions == walk_definitions(res@.events),
    {
        let ghost pv = parsed_view(files@);
        let mut events: Vec<WalkEvent> = Vec::new();
        events.push(WalkEvent::Enter);
        assert(events_view(events@) =~= seq![EventModel::Enter] + items_events(locale_entry_walks(locale@, pv.take(0))));
        let n = files.len();
        let mut i: usize = 0;
        while i < n
            invariant
                n == files.len(),
                i <= n,
                pv == parsed_view(files@),
                events_view(events@) == seq![EventModel::Enter] + items_events(locale_entry_walks(locale@, pv.take(i as int))),
            decreases n - i,
        {
            let ghost prev = locale_entry_walks(locale@, pv.take(i as int));
            assert(pv.take(i + 1).drop_last() =~= pv.take(i as int));
            assert(pv.take(i + 1).last() == files@[i as int]@);
            if files[i].locale().same_as(locale) {
                match files[i].resource() {
                    Some(walks) => {
                        let k = walks.len();
                        let mut j: usize = 0;
                        assert(prev + walks_view(walks@).take(0) =~= prev);
                        while j < k
                            invariant
                                k == walks.len(),
                                j <= k,
                                events_view(events@) == seq![EventModel::Enter] + items_events(prev + walks_view(walks@).take(j as int)),
                            decreases k - j,
                        {
                            let ghost before = events_view(events@);
                            let ghost w = walks_view(walks@);
                            events.push(WalkEvent::Enter);
                            let ghost e1 = events_view(events@);
                            assert(e1 =~= before.push(EventModel::Enter));
                            append_events(&mut events, &walks[j]);
                            let ghost e2 = events_view(events@);
                            events.push(WalkEvent::Exit);
                            assert(events_view(events@) =~= e2.push(EventModel::Exit));
                            proof {
                                assert(w[j as int] == events_view(walks@[j as int]@));
                                assert((prev + w.take(j + 1)).drop_last() =~= prev + w.take(j as int));
                                assert((prev + w.take(j + 1)).last() == w[j as int]);
                                assert(events_view(events@) =~= before + item_events(w[j as int]));
                            }
                            j += 1;
                        }
                        assert(walks_view(walks@).take(k as int) =~= walks_view(walks@));
                    },
                    None => {},
                }
            }
            i += 1;
        }
        let ghost body = events_view(events@);
        events.push(WalkEvent::Exit);
        assert(pv.take(n as int) =~= pv);
        assert(events_view(events@) =~= body + seq![EventModel::Exit]);
        let definitions = Definitions::from_events(&events);
        FluentDocument { locale: locale.copy(), events, definitions }
    }

    /// The locale of this document.
    pub fn locale(&self) -> (res: &Locale)
        ensures
            res@ == self@.locale,
    {
        &self.locale
    }

    /// The language root of this document's locale.
    pub fn language_root(&self) -> (res: LanguageRoot)
        ensures
            res@ == root_of(self@.locale),
    {
        self.locale.language_root()
    }

    /// A copy of this document.
    pub fn copy(&self) -> (res: FluentDocument)
        ensures
            res@ == self@,
    {
        proof { use_type_invariant(self); }
        let mut events: Vec<WalkEvent> = Vec::new();
        append_events(&mut events, &self.events);
        assert(events_view(events@) =~= events_view(self.events@));
        let definitions = Definitions::from_events(&events);
        FluentDocument { locale: self.locale.copy(), events, definitions }
    }

    /// The messages and terms defined, each once, in the order first met.
    pub fn entry_identifiers(&self) -> (res: Vec<QualifiedIdentifier>)
        ensures
            identifiers_view(res@) == keys(self@.definitions.signatures),
    {
        self.definitions.entry_identifiers()
    }

    /// Every identifier: each message or term followed by the attributes,
    /// variants and variables of its signature.
    pub fn all_identifiers(&self) -> (res: Vec<QualifiedIdentifier>)
        ensures
            identifiers_view(res@) == all_identifiers_of(self@.definitions.signatures),
    {
        self.definitions.all_identifiers()
    }

    /// The normalized identifiers defined more than once.
    pub fn duplicate_identifier_names(&self) -> (res: Vec<QualifiedIdentifier>)
        ensures
            identifiers_view(res@) == duplicate_identifiers_of(self@.definitions),
            forall|n: Seq<SegmentModel>| identifiers_view(res@).contains(n) <==> is_duplicate(self@.definitions, n),
    {
        proof { use_type_invariant(self); }
        self.definitions.duplicate_identifiers()
    }

    /// The references to messages, terms and attributes that are not
    /// defined, each once.
    pub fn invalid_references(&self) -> (res: Vec<QualifiedIdentifier>)
        ensures
            identifiers_view(res@) == invalid_references_of(self@.definitions),
            forall|r: Seq<SegmentModel>| identifiers_view(res@).contains(r) <==> is_invalid_reference(self@.definitions, r),
    {
        self.definitions.invalid_references()
    }

    /// The signature of a message or term, if it is defined here.
    pub fn signature(&self, identifier: &QualifiedIdentifier) -> (res: Option<&Signature>)
        ensures
            match res {
                Some(s) => lookup(self@.definitions.signatures, identifier@) == Some(s@),
                None => lookup(self@.definitions.signatures, identifier@) is None,
            },
    {
        proof { use_type_invariant(self); }
        self.definitions.signature(identifier)
    }

    /// The texts of the entries that define `identifier`.
    pub fn entries(&self, identifier: &QualifiedIdentifier) -> (res: Vec<String>)
        ensures
            views(res@) == match lookup(self@.definitions.entries, identifier@) {
                Some(t) => t,
                None => Seq::empty(),
            },
    {
        proof { use_type_invariant(self); }
        self.definitions.entries(identifier)
    }
}

/// The views of a sequence of documents.
pub open spec fn documents_view(s: Seq<FluentDocument>) -> Seq<DocumentModel> {
    s.map_values(|d: FluentDocument| d@)
}

} // verus!
