//! The stages of an audit. Files are parsed, their entries gathered into
//! one document per locale, the documents sorted by role, and the documents
//! audited; each stage reports its issues.
use vstd::prelude::*;
use crate::assoc::dedup;
use crate::definitions::{contains_identifier, identifiers_view};
use crate::identifier::QualifiedIdentifier;
use crate::document::{documents_view, parsed_view, DocumentModel, FileModel, FluentDocument, FluentFile, ParsedFluentFile, ParsedModel};
use crate::issue::{issues_view, AuditIssue, IssueModel};
use crate::locale::{contains_locale, contains_root, locales_view, roots_view, root_of, LanguageRoot, Locale};
use crate::rules::{audit_issues, audit_order, base_roots, base_to_variant_issues, bases_variant_issues, base_variant_issues, canonical_to_primary_issues, classification_issues, classify, collected_documents, document_duplicate_issues, document_invalid_reference_issues, document_locales, document_of, document_roots, documents_of, duplicate_issues, entry_ids, file_locales, first_document, invalid_reference_issues, locales_with_root, mismatch_issues, missing_base_issues, missing_issues, opt_seq, other_documents, parse_error_issues, primaries_issues, primary_issues, redundant_issues, signatures_agree, undefined_base_issues, undefined_base_issues_for, variant_issues, Classification};
use crate::walk::fluent_entry_walks;
use crate::result::{audited_view, keyed_documents, AuditResult, AuditedDocument, AuditedModel, DocumentRole, ResultModel};
use crate::workspace::{files_view, Workspace};
use crate::text::views;

verus! {

/// The stage before any file is parsed.
pub struct Empty;

/// The stage after parsing: the parsed files.
pub struct Parsed {
    files: Vec<ParsedFluentFile>,
}

impl View for Parsed {
    type V = Seq<ParsedModel>;

    closed spec fn view(&self) -> Seq<ParsedModel> {
        parsed_view(self.files@)
    }
}

/// The stage after gathering: one document per locale.
pub struct DocumentsCollected {
    documents: Vec<FluentDocument>,
}

impl View for DocumentsCollected {
    type V = Seq<DocumentModel>;

    closed spec fn view(&self) -> Seq<DocumentModel> {
        documents_view(self.documents@)
    }
}

/// The view of an optional document.
pub open spec fn opt_document_view(o: Option<FluentDocument>) -> Option<DocumentModel> {
    match o {
        Some(d) => Some(d@),
        None => None,
    }
}

/// The stage after classification: the documents by role.
pub struct DocumentsClassified {
    canonical: Option<FluentDocument>,
    primaries: Vec<FluentDocument>,
    variants: Vec<FluentDocument>,
    orphans: Vec<FluentDocument>,
}

impl View for DocumentsClassified {
    type V = Classification;

    closed spec fn view(&self) -> Classification {
        Classification {
            canonical: opt_document_view(self.canonical),
            primaries: documents_view(self.primaries@),
            variants: documents_view(self.variants@),
            orphans: documents_view(self.orphans@),
        }
    }
}

/// The stage after the audit: the documents by role.
pub struct Audited {
    canonical: Option<FluentDocument>,
    primaries: Vec<FluentDocument>,
    variants: Vec<FluentDocument>,
    orphans: Vec<FluentDocument>,
}

impl View for Audited {
    type V = Classification;

    closed spec fn view(&self) -> Classification {
        Classification {
            canonical: opt_document_view(self.canonical),
            primaries: documents_view(self.primaries@),
            variants: documents_view(self.variants@),
            orphans: documents_view(self.orphans@),
        }
    }
}

/// An audit in progress: the state of its stage and the issues reported so
/// far.
pub struct Pipeline<S> {
    state: S,
    issues: Vec<AuditIssue>,
}

impl<S> Pipeline<S> {
    /// The state of the stage.
    pub closed spec fn stage(self) -> S {
        self.state
    }

    /// The issues reported so far, in order.
    pub closed spec fn reported(self) -> Seq<IssueModel> {
        issues_view(self.issues@)
    }

    /// The issues reported so far, in order.
    pub fn issues(&self) -> (res: &Vec<AuditIssue>)
        ensures
            issues_view(res@) == self.reported(),
    {
        &self.issues
    }
}

impl Default for Pipeline<Empty> {
    fn default() -> (res: Self)
        ensures
            res.reported() == Seq::<IssueModel>::empty(),
    {
        let res = Pipeline { state: Empty, issues: Vec::new() };
        assert(res.reported() =~= Seq::<IssueModel>::empty());
        res
    }
}

/// What parsing gives for `files` with texts `contents`.
pub open spec fn parsed_models(files: Seq<FileModel>, contents: Seq<Seq<char>>) -> Seq<ParsedModel> {
    Seq::new(files.len(), |i: int| ParsedModel { file: files[i], walks: fluent_entry_walks(contents[i]) })
}

/// Appends the parse errors of `files`.
fn emit_parse_error_issues(issues: &mut Vec<AuditIssue>, files: &Vec<ParsedFluentFile>)
    ensures
        issues_view(final(issues)@) == issues_view(old(issues)@) + parse_error_issues(parsed_view(files@)),
{
    let ghost start = issues_view(issues@);
    let ghost pv = parsed_view(files@);
    let n = files.len();
    let mut i: usize = 0;
    assert(start + parse_error_issues(pv.take(0)) =~= start);
    while i < n
        invariant
            n == files.len(),
            i <= n,
            pv == parsed_view(files@),
            issues_view(issues@) == start + parse_error_issues(pv.take(i as int)),
        decreases n - i,
    {
        let ghost before = issues_view(issues@);
        assert(pv.take(i + 1).drop_last() =~= pv.take(i as int));
        assert(pv.take(i + 1).last() == files@[i as int]@);
        if files[i].resource().is_none() {
            issues.push(AuditIssue::parse_fluent_file_error(&files[i]));
            assert(issues_view(issues@) =~= before.push(parse_error_issue_of(files@[i as int]@)));
        }
        i += 1;
    }
    assert(pv.take(n as int) =~= pv);
}

/// The issue of a file that failed to parse.
pub open spec fn parse_error_issue_of(p: ParsedModel) -> IssueModel {
    crate::issue::parse_error_issue(p)
}

impl Pipeline<Empty> {
    /// Parses each of `files`, whose texts are `contents`, and reports each
    /// file that fails to parse.
    pub fn parse_fluent_files(self, files: &Vec<FluentFile>, contents: &Vec<String>) -> (res: Pipeline<Parsed>)
        requires
            files.len() == contents.len(),
        ensures
            res.stage()@ == parsed_models(files_view(files@), views(contents@)),
            res.reported() == self.reported() + parse_error_issues(res.stage()@),
    {
        let mut parsed: Vec<ParsedFluentFile> = Vec::new();
        let n = files.len();
        let mut i: usize = 0;
        while i < n
            invariant
                n == files.len(),
                n == contents.len(),
                i <= n,
                parsed.len() == i,
                forall|j: int| 0 <= j < i ==> (#[trigger] parsed@[j])@ == (ParsedModel { file: files@[j]@, walks: fluent_entry_walks(contents@[j]@) }),
            decreases n - i,
        {
            parsed.push(ParsedFluentFile::from_content(&files[i], contents[i].as_str()));
            i += 1;
        }
        assert(parsed_view(parsed@) =~= parsed_models(files_view(files@), views(contents@)));
        let mut issues = self.issues;
        emit_parse_error_issues(&mut issues, &parsed);
        Pipeline { state: Parsed { files: parsed }, issues }
    }
}

impl Pipeline<Parsed> {
    /// Gathers one document for each locale of the parsed files, in the
    /// order the locales are first met.
    pub fn collect_documents_by_locale(self) -> (res: Pipeline<DocumentsCollected>)
        ensures
            res.stage()@ == collected_documents(self.stage()@),
            res.reported() == self.reported(),
    {
        let Pipeline { state, issues } = self;
        let files = state.files;
        let ghost pv = parsed_view(files@);
        let ghost fl = file_locales(pv);
        let mut locales: Vec<Locale> = Vec::new();
        let n = files.len();
        let mut i: usize = 0;
        assert(locales_view(locales@) =~= dedup(fl.take(0)));
        while i < n
            invariant
                n == files.len(),
                i <= n,
                pv == parsed_view(files@),
                fl == file_locales(pv),
                locales_view(locales@) == dedup(fl.take(i as int)),
            decreases n - i,
        {
            let ghost before = locales_view(locales@);
            let l = files[i].locale();
            let ghost prev = fl.take(i as int);
            assert(fl.take(i + 1).drop_last() =~= prev);
            assert(fl.take(i + 1).last() == l@);
            if !contains_locale(&locales, l) {
                locales.push(l.copy());
                assert(locales_view(locales@) =~= before.push(l@));
            }
            i += 1;
        }
        assert(fl.take(n as int) =~= fl);
        let mut documents: Vec<FluentDocument> = Vec::new();
        let k = locales.len();
        let mut j: usize = 0;
        while j < k
            invariant
                k == locales.len(),
                j <= k,
                documents.len() == j,
                pv == parsed_view(files@),
                forall|q: int| 0 <= q < j ==> (#[trigger] documents@[q])@ == document_of(locales@[q]@, pv),
            decreases k - j,
        {
            documents.push(FluentDocument::from_parsed_files(&locales[j], &files));
            j += 1;
        }
        assert(documents_view(documents@) =~= collected_documents(pv));
        Pipeline { state: DocumentsCollected { documents }, issues }
    }
}

/// Whether some document has locale `l`.
fn has_document_of(documents: &Vec<FluentDocument>, l: &Locale) -> (res: bool)
    ensures
        res == document_locales(documents_view(documents@)).contains(l@),
{
    let ghost dl = document_locales(documents_view(documents@));
    let n = documents.len();
    let mut i: usize = 0;
    while i < n
        invariant
            n == documents.len(),
            i <= n,
            dl == document_locales(documents_view(documents@)),
            forall|j: int| 0 <= j < i ==> dl[j] != l@,
        decreases n - i,
    {
        if documents[i].locale().same_as(l) {
            assert(dl[i as int] == l@);
            return true;
        }
        i += 1;
    }
    assert(!dl.contains(l@));
    false
}

/// Appends an issue for each required locale (the canonical one, then the
/// primaries) that has no document.
fn emit_missing_bases(issues: &mut Vec<AuditIssue>, documents: &Vec<FluentDocument>, canonical: &Locale, primaries: &Vec<Locale>)
    ensures
        issues_view(final(issues)@) == issues_view(old(issues)@)
            + missing_base_issues(documents_view(documents@), seq![canonical@] + locales_view(primaries@)),
{
    let ghost start = issues_view(issues@);
    let ghost dv = documents_view(documents@);
    let mut required: Vec<Locale> = Vec::new();
    required.push(canonical.copy());
    let m = primaries.len();
    let mut k: usize = 0;
    while k < m
        invariant
            m == primaries.len(),
            k <= m,
            required.len() == k + 1,
            required@[0]@ == canonical@,
            forall|j: int| 0 <= j < k ==> (#[trigger] required@[j + 1])@ == primaries@[j]@,
        decreases m - k,
    {
        required.push(primaries[k].copy());
        k += 1;
    }
    let ghost rv = locales_view(required@);
    assert forall|j: int| 0 <= j < rv.len() implies rv[j] == (seq![canonical@] + locales_view(primaries@))[j] by {
        if j > 0 {
            assert(required@[(j - 1) + 1]@ == primaries@[j - 1]@);
        }
    }
    assert(rv =~= seq![canonical@] + locales_view(primaries@));
    let n = required.len();
    let mut i: usize = 0;
    assert(start + missing_base_issues(dv, rv.take(0)) =~= start);
    while i < n
        invariant
            n == required.len(),
            i <= n,
            rv == locales_view(required@),
            dv == documents_view(documents@),
            issues_view(issues@) == start + missing_base_issues(dv, rv.take(i as int)),
        decreases n - i,
    {
        let ghost before = issues_view(issues@);
        assert(rv.take(i + 1).drop_last() =~= rv.take(i as int));
        assert(rv.take(i + 1).last() == required@[i as int]@);
        if !has_document_of(documents, &required[i]) {
            issues.push(AuditIssue::missing_base_translation(&required[i]));
            assert(issues_view(issues@) =~= before.push(crate::issue::missing_base_issue(required@[i as int]@)));
        }
        i += 1;
    }
    assert(rv.take(n as int) =~= rv);
}

/// A copy of the first document of locale `l`.
fn first_document_of(documents: &Vec<FluentDocument>, l: &Locale) -> (res: Option<FluentDocument>)
    ensures
        opt_document_view(res) == first_document(documents_view(documents@), l@),
{
    let ghost dv = documents_view(documents@);
    let n = documents.len();
    let mut i: usize = 0;
    assert(dv.subrange(0, n as int) =~= dv);
    while i < n
        invariant
            n == documents.len(),
            i <= n,
            dv == documents_view(documents@),
            first_document(dv, l@) == first_document(dv.subrange(i as int, n as int), l@),
        decreases n - i,
    {
        let ghost s = dv.subrange(i as int, n as int);
        assert(s[0] == dv[i as int]);
        assert(s.drop_first() =~= dv.subrange(i + 1, n as int));
        if documents[i].locale().same_as(l) {
            return Some(documents[i].copy());
        }
        i += 1;
    }
    assert(dv.subrange(n as int, n as int).len() == 0);
    None
}

/// Copies of the documents whose locale is among `ls`, in order.
fn documents_of_locales(documents: &Vec<FluentDocument>, ls: &Vec<Locale>) -> (res: Vec<FluentDocument>)
    ensures
        documents_view(res@) == documents_of(documents_view(documents@), locales_view(ls@)),
{
    let ghost dv = documents_view(documents@);
    let mut res: Vec<FluentDocument> = Vec::new();
    let n = documents.len();
    let mut i: usize = 0;
    assert(documents_view(res@) =~= documents_of(dv.take(0), locales_view(ls@)));
    while i < n
        invariant
            n == documents.len(),
            i <= n,
            dv == documents_view(documents@),
            documents_view(res@) == documents_of(dv.take(i as int), locales_view(ls@)),
        decreases n - i,
    {
        let ghost before = documents_view(res@);
        assert(dv.take(i + 1).drop_last() =~= dv.take(i as int));
        assert(dv.take(i + 1).last() == documents@[i as int]@);
        if contains_locale(ls, documents[i].locale()) {
            res.push(documents[i].copy());
            assert(documents_view(res@) =~= before.push(documents@[i as int]@));
        }
        i += 1;
    }
    assert(dv.take(n as int) =~= dv);
    res
}

/// The roots of the canonical and primary documents.
fn roots_of_documents(canonical: &Option<FluentDocument>, primaries: &Vec<FluentDocument>) -> (res: Vec<LanguageRoot>)
    ensures
        roots_view(res@) == base_roots(opt_document_view(*canonical), documents_view(primaries@)),
{
    let ghost all = opt_seq(opt_document_view(*canonical)) + documents_view(primaries@);
    let mut res: Vec<LanguageRoot> = Vec::new();
    match canonical {
        Some(c) => res.push(c.language_root()),
        None => {},
    }
    let ghost head = res.len();
    assert(head == opt_seq(opt_document_view(*canonical)).len());
    let n = primaries.len();
    let mut i: usize = 0;
    while i < n
        invariant
            n == primaries.len(),
            i <= n,
            head == opt_seq(opt_document_view(*canonical)).len(),
            all == opt_seq(opt_document_view(*canonical)) + documents_view(primaries@),
            res.len() == head + i,
            forall|j: int| 0 <= j < head + i ==> (#[trigger] res@[j])@ == root_of(all[j].locale),
        decreases n - i,
    {
        res.push(primaries[i].language_root());
        i += 1;
    }
    assert(roots_view(res@) =~= document_roots(all));
    res
}

/// Copies of the documents that are neither canonical nor primary, and
/// whose root is (`base_root`) or is not among `roots`, in order.
fn other_documents_of(
    documents: &Vec<FluentDocument>,
    canonical: &Locale,
    primaries: &Vec<Locale>,
    roots: &Vec<LanguageRoot>,
    base_root: bool,
) -> (res: Vec<FluentDocument>)
    ensures
        documents_view(res@) == other_documents(
            documents_view(documents@),
            canonical@,
            locales_view(primaries@),
            roots_view(roots@),
            base_root,
        ),
{
    let ghost dv = documents_view(documents@);
    let ghost pv = locales_view(primaries@);
    let ghost rv = roots_view(roots@);
    let mut res: Vec<FluentDocument> = Vec::new();
    let n = documents.len();
    let mut i: usize = 0;
    assert(documents_view(res@) =~= other_documents(dv.take(0), canonical@, pv, rv, base_root));
    while i < n
        invariant
            n == documents.len(),
            i <= n,
            dv == documents_view(documents@),
            pv == locales_view(primaries@),
            rv == roots_view(roots@),
            documents_view(res@) == other_documents(dv.take(i as int), canonical@, pv, rv, base_root),
        decreases n - i,
    {
        let ghost before = documents_view(res@);
        assert(dv.take(i + 1).drop_last() =~= dv.take(i as int));
        assert(dv.take(i + 1).last() == documents@[i as int]@);
        let d = &documents[i];
        let is_canonical = d.locale().same_as(canonical);
        let is_primary = contains_locale(primaries, d.locale());
        let root = d.language_root();
        let in_roots = contains_root(roots, &root);
        if !is_canonical && !is_primary && in_roots == base_root {
            res.push(d.copy());
            assert(documents_view(res@) =~= before.push(documents@[i as int]@));
        }
        i += 1;
    }
    assert(dv.take(n as int) =~= dv);
    res
}

/// The locales of those `documents` whose root is `r`, in order.
fn locales_of_root(documents: &Vec<FluentDocument>, r: &LanguageRoot) -> (res: Vec<Locale>)
    ensures
        locales_view(res@) == locales_with_root(documents_view(documents@), r@),
{
    let ghost dv = documents_view(documents@);
    let mut res: Vec<Locale> = Vec::new();
    let n = documents.len();
    let mut i: usize = 0;
    assert(locales_view(res@) =~= locales_with_root(dv.take(0), r@));
    while i < n
        invariant
            n == documents.len(),
            i <= n,
            dv == documents_view(documents@),
            locales_view(res@) == locales_with_root(dv.take(i as int), r@),
        decreases n - i,
    {
        let ghost before = locales_view(res@);
        assert(dv.take(i + 1).drop_last() =~= dv.take(i as int));
        assert(dv.take(i + 1).last() == documents@[i as int]@);
        let root = documents[i].language_root();
        if root.same_as(r) {
            res.push(documents[i].locale().copy());
            assert(locales_view(res@) =~= before.push(documents@[i as int]@.locale));
        }
        i += 1;
    }
    assert(dv.take(n as int) =~= dv);
    res
}

/// Appends one issue for each root of the orphans, in the order the roots
/// are first met, naming the orphan locales of that root.
fn emit_undefined_bases(issues: &mut Vec<AuditIssue>, orphans: &Vec<FluentDocument>)
    ensures
        issues_view(final(issues)@) == issues_view(old(issues)@) + undefined_base_issues(documents_view(orphans@)),
{
    let ghost start = issues_view(issues@);
    let ghost ov = documents_view(orphans@);
    let ghost dr = document_roots(ov);
    let mut roots: Vec<LanguageRoot> = Vec::new();
    let n = orphans.len();
    let mut i: usize = 0;
    assert(roots_view(roots@) =~= dedup(dr.take(0)));
    while i < n
        invariant
            n == orphans.len(),
            i <= n,
            ov == documents_view(orphans@),
            dr == document_roots(ov),
            roots_view(roots@) == dedup(dr.take(i as int)),
        decreases n - i,
    {
        let ghost before = roots_view(roots@);
        assert(dr.take(i + 1).drop_last() =~= dr.take(i as int));
        assert(dr.take(i + 1).last() == root_of(orphans@[i as int]@.locale));
        let r = orphans[i].language_root();
        if !contains_root(&roots, &r) {
            roots.push(r);
            assert(roots_view(roots@) =~= before.push(root_of(orphans@[i as int]@.locale)));
        }
        i += 1;
    }
    assert(dr.take(n as int) =~= dr);
    let ghost rv = roots_view(roots@);
    let k = roots.len();
    let mut j: usize = 0;
    assert(start + undefined_base_issues_for(rv.take(0), ov) =~= start);
    while j < k
        invariant
            k == roots.len(),
            j <= k,
            rv == roots_view(roots@),
            ov == documents_view(orphans@),
            issues_view(issues@) == start + undefined_base_issues_for(rv.take(j as int), ov),
        decreases k - j,
    {
        let ghost before = issues_view(issues@);
        assert(rv.take(j + 1).drop_last() =~= rv.take(j as int));
        assert(rv.take(j + 1).last() == roots@[j as int]@);
        let locales = locales_of_root(orphans, &roots[j]);
        issues.push(AuditIssue::undefined_base_locale(&roots[j], &locales));
        assert(issues_view(issues@) =~= before.push(crate::issue::undefined_base_issue(
            roots@[j as int]@,
            locales_with_root(ov, roots@[j as int]@),
        )));
        j += 1;
    }
    assert(rv.take(k as int) =~= rv);
}

impl Pipeline<DocumentsCollected> {
    /// Sorts the documents by role and reports the required locales without
    /// a document and the language roots without a base.
    pub fn classify_documents(self, canonical: &Locale, primaries: &Vec<Locale>) -> (res: Pipeline<DocumentsClassified>)
        ensures
            res.stage()@ == classify(self.stage()@, canonical@, locales_view(primaries@)),
            res.reported() == self.reported() + classification_issues(self.stage()@, canonical@, locales_view(primaries@)),
    {
        let Pipeline { state, issues } = self;
        let mut issues = issues;
        let documents = state.documents;
        let ghost start = issues_view(issues@);
        emit_missing_bases(&mut issues, &documents, canonical, primaries);
        let c = first_document_of(&documents, canonical);
        let p = documents_of_locales(&documents, primaries);
        let roots = roots_of_documents(&c, &p);
        let variants = other_documents_of(&documents, canonical, primaries, &roots, true);
        let orphans = other_documents_of(&documents, canonical, primaries, &roots, false);
        emit_undefined_bases(&mut issues, &orphans);
        let res = Pipeline { state: DocumentsClassified { canonical: c, primaries: p, variants, orphans }, issues };
        assert(res.reported() =~= start + classification_issues(documents_view(documents@), canonical@, locales_view(primaries@)));
        res
    }
}

/// Duplicates are reported document by document.
pub proof fn lemma_duplicate_issues_append(a: Seq<DocumentModel>, b: Seq<DocumentModel>)
    ensures
        duplicate_issues(a + b) == duplicate_issues(a) + duplicate_issues(b),
    decreases b.len(),
{
    if b.len() == 0 {
        assert(a + b =~= a);
        assert(duplicate_issues(a) + duplicate_issues(b) =~= duplicate_issues(a));
    } else {
        lemma_duplicate_issues_append(a, b.drop_last());
        assert((a + b).drop_last() =~= a + b.drop_last());
        assert((a + b).last() == b.last());
        assert(duplicate_issues(a) + duplicate_issues(b) =~= (duplicate_issues(a) + duplicate_issues(b.drop_last()))
            + document_duplicate_issues(b.last()));
    }
}

/// Invalid references are reported document by document.
pub proof fn lemma_invalid_reference_issues_append(a: Seq<DocumentModel>, b: Seq<DocumentModel>)
    ensures
        invalid_reference_issues(a + b) == invalid_reference_issues(a) + invalid_reference_issues(b),
    decreases b.len(),
{
    if b.len() == 0 {
        assert(a + b =~= a);
        assert(invalid_reference_issues(a) + invalid_reference_issues(b) =~= invalid_reference_issues(a));
    } else {
        lemma_invalid_reference_issues_append(a, b.drop_last());
        assert((a + b).drop_last() =~= a + b.drop_last());
        assert((a + b).last() == b.last());
        assert(invalid_reference_issues(a) + invalid_reference_issues(b) =~= (invalid_reference_issues(a)
            + invalid_reference_issues(b.drop_last())) + document_invalid_reference_issues(b.last()));
    }
}

/// Appends the duplicate identifiers of a document.
fn emit_document_duplicates(issues: &mut Vec<AuditIssue>, d: &FluentDocument)
    ensures
        issues_view(final(issues)@) == issues_view(old(issues)@) + document_duplicate_issues(d@),
{
    let ghost start = issues_view(issues@);
    let ids = d.duplicate_identifier_names();
    let ghost iv = identifiers_view(ids@);
    let n = ids.len();
    let mut i: usize = 0;
    assert(start + Seq::new(0, |j: int| crate::issue::duplicate_identifier_issue(d@.locale, iv[j])) =~= start);
    while i < n
        invariant
            n == ids.len(),
            i <= n,
            iv == identifiers_view(ids@),
            issues_view(issues@) == start + Seq::new(i as nat, |j: int| crate::issue::duplicate_identifier_issue(d@.locale, iv[j])),
        decreases n - i,
    {
        let ghost before = issues_view(issues@);
        let issue = AuditIssue::duplicate_identifier(d.locale(), &ids[i]);
        assert(issue@ == crate::issue::duplicate_identifier_issue(d@.locale, iv[i as int]));
        issues.push(issue);
        assert(issues_view(issues@) =~= before.push(crate::issue::duplicate_identifier_issue(d@.locale, iv[i as int])));
        assert(issues_view(issues@) =~= start + Seq::new((i + 1) as nat, |j: int| crate::issue::duplicate_identifier_issue(d@.locale, iv[j])));
        i += 1;
    }
    assert(Seq::new(n as nat, |j: int| crate::issue::duplicate_identifier_issue(d@.locale, iv[j])) =~= document_duplicate_issues(d@));
}

/// Appends the duplicate identifiers of each document, in order.
fn emit_duplicates_of(issues: &mut Vec<AuditIssue>, docs: &Vec<FluentDocument>)
    ensures
        issues_view(final(issues)@) == issues_view(old(issues)@) + duplicate_issues(documents_view(docs@)),
{
    let ghost start = issues_view(issues@);
    let ghost dv = documents_view(docs@);
    let n = docs.len();
    let mut i: usize = 0;
    assert(start + duplicate_issues(dv.take(0)) =~= start);
    while i < n
        invariant
            n == docs.len(),
            i <= n,
            dv == documents_view(docs@),
            issues_view(issues@) == start + duplicate_issues(dv.take(i as int)),
        decreases n - i,
    {
        let ghost before = issues_view(issues@);
        assert(dv.take(i + 1).drop_last() =~= dv.take(i as int));
        assert(dv.take(i + 1).last() == docs@[i as int]@);
        emit_document_duplicates(issues, &docs[i]);
        assert(issues_view(issues@) =~= start + duplicate_issues(dv.take(i + 1)));
        i += 1;
    }
    assert(dv.take(n as int) =~= dv);
}

/// Appends the invalid references of a document.
fn emit_document_invalid_references(issues: &mut Vec<AuditIssue>, d: &FluentDocument)
    ensures
        issues_view(final(issues)@) == issues_view(old(issues)@) + document_invalid_reference_issues(d@),
{
    let ghost start = issues_view(issues@);
    let ids = d.invalid_references();
    let ghost iv = identifiers_view(ids@);
    let n = ids.len();
    let mut i: usize = 0;
    assert(start + Seq::new(0, |j: int| crate::issue::invalid_reference_issue(d@.locale, iv[j])) =~= start);
    while i < n
        invariant
            n == ids.len(),
            i <= n,
            iv == identifiers_view(ids@),
            issues_view(issues@) == start + Seq::new(i as nat, |j: int| crate::issue::invalid_reference_issue(d@.locale, iv[j])),
        decreases n - i,
    {
        let ghost before = issues_view(issues@);
        let issue = AuditIssue::invalid_reference(d.locale(), &ids[i]);
        assert(issue@ == crate::issue::invalid_reference_issue(d@.locale, iv[i as int]));
        issues.push(issue);
        assert(issues_view(issues@) =~= before.push(crate::issue::invalid_reference_issue(d@.locale, iv[i as int])));
        assert(issues_view(issues@) =~= start + Seq::new((i + 1) as nat, |j: int| crate::issue::invalid_reference_issue(d@.locale, iv[j])));
        i += 1;
    }
    assert(Seq::new(n as nat, |j: int| crate::issue::invalid_reference_issue(d@.locale, iv[j])) =~= document_invalid_reference_issues(d@));
}

/// Appends the invalid references of each document, in order.
fn emit_invalid_references_of(issues: &mut Vec<AuditIssue>, docs: &Vec<FluentDocument>)
    ensures
        issues_view(final(issues)@) == issues_view(old(issues)@) + invalid_reference_issues(documents_view(docs@)),
{
    let ghost start = issues_view(issues@);
    let ghost dv = documents_view(docs@);
    let n = docs.len();
    let mut i: usize = 0;
    assert(start + invalid_reference_issues(dv.take(0)) =~= start);
    while i < n
        invariant
            n == docs.len(),
            i <= n,
            dv == documents_view(docs@),
            issues_view(issues@) == start + invalid_reference_issues(dv.take(i as int)),
        decreases n - i,
    {
        assert(dv.take(i + 1).drop_last() =~= dv.take(i as int));
        assert(dv.take(i + 1).last() == docs@[i as int]@);
        emit_document_invalid_references(issues, &docs[i]);
        assert(issues_view(issues@) =~= start + invalid_reference_issues(dv.take(i + 1)));
        i += 1;
    }
    assert(dv.take(n as int) =~= dv);
}

/// Appends a missing translation of `target` for each of `ids` it does not
/// define.
fn emit_missing(issues: &mut Vec<AuditIssue>, ids: &Vec<QualifiedIdentifier>, target: &FluentDocument, target_ids: &Vec<QualifiedIdentifier>)
    requires
        identifiers_view(target_ids@) == entry_ids(target@),
    ensures
        issues_view(final(issues)@) == issues_view(old(issues)@) + missing_issues(identifiers_view(ids@), target@),
{
    let ghost start = issues_view(issues@);
    let ghost iv = identifiers_view(ids@);
    let n = ids.len();
    let mut i: usize = 0;
    assert(start + missing_issues(iv.take(0), target@) =~= start);
    while i < n
        invariant
            n == ids.len(),
            i <= n,
            iv == identifiers_view(ids@),
            identifiers_view(target_ids@) == entry_ids(target@),
            issues_view(issues@) == start + missing_issues(iv.take(i as int), target@),
        decreases n - i,
    {
        let ghost before = issues_view(issues@);
        assert(iv.take(i + 1).drop_last() =~= iv.take(i as int));
        assert(iv.take(i + 1).last() == ids@[i as int]@);
        if !contains_identifier(target_ids, &ids[i]) {
            issues.push(AuditIssue::missing_translation(target.locale(), &ids[i]));
            assert(issues_view(issues@) =~= before.push(crate::issue::missing_translation_issue(target@.locale, ids@[i as int]@)));
        }
        i += 1;
    }
    assert(iv.take(n as int) =~= iv);
}

/// Whether `base` and `target` give `id` the same signature.
fn signatures_agree_at(base: &FluentDocument, target: &FluentDocument, id: &QualifiedIdentifier) -> (res: bool)
    ensures
        res == signatures_agree(base@, target@, id@),
{
    match (base.signature(id), target.signature(id)) {
        (Some(x), Some(y)) => x.same_as(y),
        (None, None) => true,
        _ => false,
    }
}

/// Appends a signature mismatch of `target` for each of `ids` that it
/// defines with another signature than `base`.
fn emit_mismatches(
    issues: &mut Vec<AuditIssue>,
    ids: &Vec<QualifiedIdentifier>,
    base: &FluentDocument,
    target: &FluentDocument,
    target_ids: &Vec<QualifiedIdentifier>,
)
    requires
        identifiers_view(target_ids@) == entry_ids(target@),
    ensures
        issues_view(final(issues)@) == issues_view(old(issues)@) + mismatch_issues(identifiers_view(ids@), base@, target@),
{
    let ghost start = issues_view(issues@);
    let ghost iv = identifiers_view(ids@);
    let n = ids.len();
    let mut i: usize = 0;
    assert(start + mismatch_issues(iv.take(0), base@, target@) =~= start);
    while i < n
        invariant
            n == ids.len(),
            i <= n,
            iv == identifiers_view(ids@),
            identifiers_view(target_ids@) == entry_ids(target@),
            issues_view(issues@) == start + mismatch_issues(iv.take(i as int), base@, target@),
        decreases n - i,
    {
        let ghost before = issues_view(issues@);
        assert(iv.take(i + 1).drop_last() =~= iv.take(i as int));
        assert(iv.take(i + 1).last() == ids@[i as int]@);
        if contains_identifier(target_ids, &ids[i]) && !signatures_agree_at(base, target, &ids[i]) {
            issues.push(AuditIssue::signature_mismatch(target.locale(), &ids[i]));
            assert(issues_view(issues@) =~= before.push(crate::issue::signature_mismatch_issue(target@.locale, ids@[i as int]@)));
        }
        i += 1;
    }
    assert(iv.take(n as int) =~= iv);
}

/// Appends a redundant translation of `target` for each of `ids` that
/// `base` does not define.
fn emit_redundant(
    issues: &mut Vec<AuditIssue>,
    ids: &Vec<QualifiedIdentifier>,
    base: &FluentDocument,
    base_ids: &Vec<QualifiedIdentifier>,
    target: &FluentDocument,
)
    requires
        identifiers_view(base_ids@) == entry_ids(base@),
    ensures
        issues_view(final(issues)@) == issues_view(old(issues)@) + redundant_issues(identifiers_view(ids@), base@, target@),
{
    let ghost start = issues_view(issues@);
    let ghost iv = identifiers_view(ids@);
    let n = ids.len();
    let mut i: usize = 0;
    assert(start + redundant_issues(iv.take(0), base@, target@) =~= start);
    while i < n
        invariant
            n == ids.len(),
            i <= n,
            iv == identifiers_view(ids@),
            identifiers_view(base_ids@) == entry_ids(base@),
            issues_view(issues@) == start + redundant_issues(iv.take(i as int), base@, target@),
        decreases n - i,
    {
        let ghost before = issues_view(issues@);
        assert(iv.take(i + 1).drop_last() =~= iv.take(i as int));
        assert(iv.take(i + 1).last() == ids@[i as int]@);
        if !contains_identifier(base_ids, &ids[i]) {
            issues.push(AuditIssue::redundant_translation(target.locale(), &ids[i]));
            assert(issues_view(issues@) =~= before.push(crate::issue::redundant_translation_issue(target@.locale, ids@[i as int]@)));
        }
        i += 1;
    }
    assert(iv.take(n as int) =~= iv);
}

/// Appends the issues of a primary checked against the canonical document.
fn emit_primary_issues(issues: &mut Vec<AuditIssue>, canonical: &FluentDocument, canonical_ids: &Vec<QualifiedIdentifier>, primary: &FluentDocument)
    requires
        identifiers_view(canonical_ids@) == entry_ids(canonical@),
    ensures
        issues_view(final(issues)@) == issues_view(old(issues)@) + primary_issues(canonical@, primary@),
{
    let ghost start = issues_view(issues@);
    let primary_ids = primary.entry_identifiers();
    emit_missing(issues, canonical_ids, primary, &primary_ids);
    emit_mismatches(issues, canonical_ids, canonical, primary, &primary_ids);
    emit_redundant(issues, &primary_ids, canonical, canonical_ids, primary);
    assert(issues_view(issues@) =~= start + primary_issues(canonical@, primary@));
}

/// Appends the issues of a variant checked against a base, when they share
/// a language root.
fn emit_variant_issues(issues: &mut Vec<AuditIssue>, base: &FluentDocument, base_ids: &Vec<QualifiedIdentifier>, variant: &FluentDocument)
    requires
        identifiers_view(base_ids@) == entry_ids(base@),
    ensures
        issues_view(final(issues)@) == issues_view(old(issues)@) + variant_issues(base@, variant@),
{
    let ghost start = issues_view(issues@);
    if variant.language_root().same_as(&base.language_root()) {
        let variant_ids = variant.entry_identifiers();
        emit_mismatches(issues, base_ids, base, variant, &variant_ids);
        emit_redundant(issues, &variant_ids, base, base_ids, variant);
        assert(issues_view(issues@) =~= start + variant_issues(base@, variant@));
    } else {
        assert(issues_view(issues@) =~= start + variant_issues(base@, variant@));
    }
}

/// Appends the issues of each variant checked against one base.
fn emit_base_variants(issues: &mut Vec<AuditIssue>, base: &FluentDocument, variants: &Vec<FluentDocument>)
    ensures
        issues_view(final(issues)@) == issues_view(old(issues)@) + base_variant_issues(base@, documents_view(variants@)),
{
    let ghost start = issues_view(issues@);
    let ghost vv = documents_view(variants@);
    let base_ids = base.entry_identifiers();
    let n = variants.len();
    let mut i: usize = 0;
    assert(start + base_variant_issues(base@, vv.take(0)) =~= start);
    while i < n
        invariant
            n == variants.len(),
            i <= n,
            vv == documents_view(variants@),
            identifiers_view(base_ids@) == entry_ids(base@),
            issues_view(issues@) == start + base_variant_issues(base@, vv.take(i as int)),
        decreases n - i,
    {
        assert(vv.take(i + 1).drop_last() =~= vv.take(i as int));
        assert(vv.take(i + 1).last() == variants@[i as int]@);
        emit_variant_issues(issues, base, &base_ids, &variants[i]);
        assert(issues_view(issues@) =~= start + base_variant_issues(base@, vv.take(i + 1)));
        i += 1;
    }
    assert(vv.take(n as int) =~= vv);
}

impl Pipeline<DocumentsClassified> {
    /// Reports the identifiers defined more than once, document by document
    /// in audit order.
    pub fn emit_duplicate_identifiers(&mut self)
        ensures
            final(self).stage() == old(self).stage(),
            final(self).reported() == old(self).reported() + duplicate_issues(audit_order(old(self).stage()@)),
    {
        let ghost c = self.state@;
        let ghost start = issues_view(self.issues@);
        match &self.state.canonical {
            Some(d) => {
                emit_document_duplicates(&mut self.issues, d);
                assert(c.canonical == Some(d@));
                assert(opt_seq(c.canonical) == seq![d@]);
                assert(seq![d@].drop_last() =~= Seq::<DocumentModel>::empty());
                assert(seq![d@].last() == d@);
                assert(duplicate_issues(Seq::<DocumentModel>::empty()) =~= Seq::<IssueModel>::empty());
                assert(duplicate_issues(seq![d@]) == duplicate_issues(Seq::<DocumentModel>::empty()) + document_duplicate_issues(d@));
                assert(duplicate_issues(opt_seq(c.canonical)) =~= document_duplicate_issues(d@));
            },
            None => {
                assert(duplicate_issues(opt_seq(c.canonical)) =~= Seq::<IssueModel>::empty());
            },
        }
        emit_duplicates_of(&mut self.issues, &self.state.primaries);
        emit_duplicates_of(&mut self.issues, &self.state.variants);
        emit_duplicates_of(&mut self.issues, &self.state.orphans);
        proof {
            lemma_duplicate_issues_append(opt_seq(c.canonical), c.primaries);
            lemma_duplicate_issues_append(opt_seq(c.canonical) + c.primaries, c.variants);
            lemma_duplicate_issues_append(opt_seq(c.canonical) + c.primaries + c.variants, c.orphans);
        }
        assert(issues_view(self.issues@) =~= start + duplicate_issues(audit_order(c)));
    }

    /// Reports the references to nothing defined, document by document in
    /// audit order.
    pub fn emit_invalid_references(&mut self)
        ensures
            final(self).stage() == old(self).stage(),
            final(self).reported() == old(self).reported() + invalid_reference_issues(audit_order(old(self).stage()@)),
    {
        let ghost c = self.state@;
        let ghost start = issues_view(self.issues@);
        match &self.state.canonical {
            Some(d) => {
                emit_document_invalid_references(&mut self.issues, d);
                assert(c.canonical == Some(d@));
                assert(opt_seq(c.canonical) == seq![d@]);
                assert(seq![d@].drop_last() =~= Seq::<DocumentModel>::empty());
                assert(seq![d@].last() == d@);
                assert(invalid_reference_issues(Seq::<DocumentModel>::empty()) =~= Seq::<IssueModel>::empty());
                assert(invalid_reference_issues(seq![d@]) == invalid_reference_issues(Seq::<DocumentModel>::empty()) + document_invalid_reference_issues(d@));
                assert(invalid_reference_issues(opt_seq(c.canonical)) =~= document_invalid_reference_issues(d@));
            },
            None => {
                assert(invalid_reference_issues(opt_seq(c.canonical)) =~= Seq::<IssueModel>::empty());
            },
        }
        emit_invalid_references_of(&mut self.issues, &self.state.primaries);
        emit_invalid_references_of(&mut self.issues, &self.state.variants);
        emit_invalid_references_of(&mut self.issues, &self.state.orphans);
        proof {
            lemma_invalid_reference_issues_append(opt_seq(c.canonical), c.primaries);
            lemma_invalid_reference_issues_append(opt_seq(c.canonical) + c.primaries, c.variants);
            lemma_invalid_reference_issues_append(opt_seq(c.canonical) + c.primaries + c.variants, c.orphans);
        }
        assert(issues_view(self.issues@) =~= start + invalid_reference_issues(audit_order(c)));
    }

    /// Reports, for each primary in order, the canonical entries it lacks,
    /// those it defines with another signature, and the entries it has that
    /// the canonical document does not.
    pub fn emit_canonical_to_primary_issues(&mut self)
        ensures
            final(self).stage() == old(self).stage(),
            final(self).reported() == old(self).reported() + canonical_to_primary_issues(old(self).stage()@),
    {
        let ghost c = self.state@;
        let ghost start = issues_view(self.issues@);
        match &self.state.canonical {
            Some(canonical) => {
                let canonical_ids = canonical.entry_identifiers();
                let ghost pv = documents_view(self.state.primaries@);
                let n = self.state.primaries.len();
                let mut i: usize = 0;
                assert(start + primaries_issues(canonical@, pv.take(0)) =~= start);
                while i < n
                    invariant
                        n == self.state.primaries.len(),
                        i <= n,
                        pv == documents_view(self.state.primaries@),
                        self.stage() == old(self).stage(),
                        identifiers_view(canonical_ids@) == entry_ids(canonical@),
                        issues_view(self.issues@) == start + primaries_issues(canonical@, pv.take(i as int)),
                    decreases n - i,
                {
                    assert(pv.take(i + 1).drop_last() =~= pv.take(i as int));
                    assert(pv.take(i + 1).last() == self.state.primaries@[i as int]@);
                    emit_primary_issues(&mut self.issues, canonical, &canonical_ids, &self.state.primaries[i]);
                    assert(issues_view(self.issues@) =~= start + primaries_issues(canonical@, pv.take(i + 1)));
                    i += 1;
                }
                assert(pv.take(n as int) =~= pv);
            },
            None => {
                assert(issues_view(self.issues@) =~= start + canonical_to_primary_issues(c));
            },
        }
    }

    /// Reports, for each base (the canonical document, then the primaries)
    /// and each variant of its root, the entries the variant defines with
    /// another signature and those the base does not define.
    pub fn emit_base_to_variant_issues(&mut self)
        ensures
            final(self).stage() == old(self).stage(),
            final(self).reported() == old(self).reported() + base_to_variant_issues(old(self).stage()@),
    {
        let ghost c = self.state@;
        let ghost start = issues_view(self.issues@);
        let ghost head = opt_seq(c.canonical);
        match &self.state.canonical {
            Some(canonical) => {
                emit_base_variants(&mut self.issues, canonical, &self.state.variants);
                assert(c.canonical == Some(canonical@));
                assert(head == seq![canonical@]);
                assert(seq![canonical@].drop_last() =~= Seq::<DocumentModel>::empty());
                assert(seq![canonical@].last() == canonical@);
                assert(bases_variant_issues(Seq::<DocumentModel>::empty(), c.variants) =~= Seq::<IssueModel>::empty());
                assert(bases_variant_issues(seq![canonical@], c.variants) == bases_variant_issues(Seq::<DocumentModel>::empty(), c.variants)
                    + base_variant_issues(canonical@, c.variants));
                assert(bases_variant_issues(head, c.variants) =~= base_variant_issues(canonical@, c.variants));
            },
            None => {
                assert(bases_variant_issues(head, c.variants) =~= Seq::<IssueModel>::empty());
            },
        }
        assert(issues_view(self.issues@) =~= start + bases_variant_issues(head, c.variants));
        let ghost pv = documents_view(self.state.primaries@);
        let n = self.state.primaries.len();
        let mut i: usize = 0;
        assert(head + pv.take(0) =~= head);
        while i < n
            invariant
                n == self.state.primaries.len(),
                i <= n,
                c == self.state@,
                self.stage() == old(self).stage(),
                head == opt_seq(c.canonical),
                pv == documents_view(self.state.primaries@),
                issues_view(self.issues@) == start + bases_variant_issues(head + pv.take(i as int), c.variants),
            decreases n - i,
        {
            assert((head + pv.take(i + 1)).drop_last() =~= head + pv.take(i as int));
            assert((head + pv.take(i + 1)).last() == self.state.primaries@[i as int]@);
            emit_base_variants(&mut self.issues, &self.state.primaries[i], &self.state.variants);
            assert(issues_view(self.issues@) =~= start + bases_variant_issues(head + pv.take(i + 1), c.variants));
            i += 1;
        }
        assert(pv.take(n as int) =~= pv);
    }

    /// Audits the classified documents: duplicates, invalid references,
    /// primaries against the canonical document, variants against their
    /// bases.
    pub fn audit(self) -> (res: Pipeline<Audited>)
        ensures
            res.stage()@ == self.stage()@,
            res.reported() == self.reported() + audit_issues(self.stage()@),
    {
        let ghost start = self.reported();
        let ghost c = self.stage()@;
        let mut p = self;
        p.emit_duplicate_identifiers();
        p.emit_invalid_references();
        p.emit_canonical_to_primary_issues();
        p.emit_base_to_variant_issues();
        let Pipeline { state, issues } = p;
        let res = Pipeline {
            state: Audited {
                canonical: state.canonical,
                primaries: state.primaries,
                variants: state.variants,
                orphans: state.orphans,
            },
            issues,
        };
        assert(res.reported() =~= start + audit_issues(c));
        res
    }
}

/// Documents with one role.
pub open spec fn with_role(docs: Seq<DocumentModel>, role: DocumentRole) -> Seq<AuditedModel> {
    docs.map_values(|d: DocumentModel| AuditedModel { document: d, role })
}

/// The documents with the roles a classification gives them: the canonical
/// document, the primaries, the variants, the orphans.
pub open spec fn roled_documents(c: Classification) -> Seq<AuditedModel> {
    with_role(opt_seq(c.canonical), DocumentRole::Canonical)
        + with_role(c.primaries, DocumentRole::Primary)
        + with_role(c.variants, DocumentRole::Variant)
        + with_role(c.orphans, DocumentRole::Orphan)
}

/// Appends the documents with the given role.
fn push_with_role(nodes: &mut Vec<AuditedDocument>, docs: &Vec<FluentDocument>, role: DocumentRole)
    ensures
        audited_view(final(nodes)@) == audited_view(old(nodes)@) + with_role(documents_view(docs@), role),
{
    let ghost start = audited_view(nodes@);
    let n = docs.len();
    let mut i: usize = 0;
    while i < n
        invariant
            n == docs.len(),
            i <= n,
            audited_view(nodes@) == start + with_role(documents_view(docs@).take(i as int), role),
        decreases n - i,
    {
        let ghost before = audited_view(nodes@);
        let node = AuditedDocument::from_fluent_document(role, &docs[i]);
        let ghost nd = node@;
        nodes.push(node);
        assert(audited_view(nodes@) =~= before.push(nd));
        assert(with_role(documents_view(docs@).take(i + 1), role) =~= with_role(documents_view(docs@).take(i as int), role).push(nd));
        i += 1;
    }
    assert(documents_view(docs@).take(n as int) =~= documents_view(docs@));
}

impl Pipeline<Audited> {
    /// The result of the audit: the issues reported, and the documents with
    /// their roles, keyed by locale.
    pub fn get_result(self, workspace: &Workspace) -> (res: AuditResult)
        ensures
            res@ == (ResultModel {
                issues: self.reported(),
                documents: keyed_documents(roled_documents(self.stage()@)),
                workspace: workspace@,
            }),
    {
        let ghost c = self.stage()@;
        let Pipeline { state, issues } = self;
        let mut nodes: Vec<AuditedDocument> = Vec::new();
        match &state.canonical {
            Some(d) => {
                nodes.push(AuditedDocument::from_fluent_document(DocumentRole::Canonical, d));
            },
            None => {},
        }
        assert(audited_view(nodes@) =~= with_role(opt_seq(c.canonical), DocumentRole::Canonical));
        push_with_role(&mut nodes, &state.primaries, DocumentRole::Primary);
        push_with_role(&mut nodes, &state.variants, DocumentRole::Variant);
        push_with_role(&mut nodes, &state.orphans, DocumentRole::Orphan);
        AuditResult::new(issues, nodes, workspace)
    }
}

} // verus!
