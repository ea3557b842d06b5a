//! What an audit reports, stated over the models of files, documents and
//! issues. The stages of `pipeline` compute exactly these.
use vstd::prelude::*;
use crate::assoc::{dedup, keys, lookup};
use crate::definitions::{
    duplicate_identifiers_of, invalid_references_of, same_signature, walk_definitions,
};
use crate::document::{document_events, DocumentModel, ParsedModel};
use crate::identifier::SegmentModel;
use crate::issue::{
    duplicate_identifier_issue, invalid_reference_issue, missing_base_issue,
    missing_translation_issue, parse_error_issue, redundant_translation_issue,
    signature_mismatch_issue, undefined_base_issue, IssueModel,
};
use crate::locale::{root_of, LocaleModel, RootModel};

verus! {

/// The parse errors of `files`, in order.
pub open spec fn parse_error_issues(files: Seq<ParsedModel>) -> Seq<IssueModel>
    decreases files.len(),
{
    if files.len() == 0 {
        Seq::empty()
    } else {
        let rest = parse_error_issues(files.drop_last());
        if files.last().walks is Err {
            rest.push(parse_error_issue(files.last()))
        } else {
            rest
        }
    }
}

/// The locales of `files`, in order.
pub open spec fn file_locales(files: Seq<ParsedModel>) -> Seq<LocaleModel> {
    files.map_values(|f: ParsedModel| f.file.locale)
}

/// The document of locale `l` gathered from `files`.
pub open spec fn document_of(l: LocaleModel, files: Seq<ParsedModel>) -> DocumentModel {
    let events = document_events(l, files);
    DocumentModel { locale: l, events, definitions: walk_definitions(events) }
}

/// One document for each locale of `files`, in the order the locales are
/// first met.
pub open spec fn collected_documents(files: Seq<ParsedModel>) -> Seq<DocumentModel> {
    dedup(file_locales(files)).map_values(|l: LocaleModel| document_of(l, files))
}

/// The locales of a sequence of documents.
pub open spec fn document_locales(docs: Seq<DocumentModel>) -> Seq<LocaleModel> {
    docs.map_values(|d: DocumentModel| d.locale)
}

/// The language roots of a sequence of documents.
pub open spec fn document_roots(docs: Seq<DocumentModel>) -> Seq<RootModel> {
    docs.map_values(|d: DocumentModel| root_of(d.locale))
}

/// The required locales that have no document, each with its issue, in
/// order.
pub open spec fn missing_base_issues(docs: Seq<DocumentModel>, required: Seq<LocaleModel>) -> Seq<IssueModel>
    decreases required.len(),
{
    if required.len() == 0 {
        Seq::empty()
    } else {
        let rest = missing_base_issues(docs, required.drop_last());
        if document_locales(docs).contains(required.last()) {
            rest
        } else {
            rest.push(missing_base_issue(required.last()))
        }
    }
}

/// The first document of locale `l`.
pub open spec fn first_document(docs: Seq<DocumentModel>, l: LocaleModel) -> Option<DocumentModel>
    decreases docs.len(),
{
    if docs.len() == 0 {
        None
    } else if docs[0].locale == l {
        Some(docs[0])
    } else {
        first_document(docs.drop_first(), l)
    }
}

/// The documents whose locale is among `ls`, in order.
pub open spec fn documents_of(docs: Seq<DocumentModel>, ls: Seq<LocaleModel>) -> Seq<DocumentModel>
    decreases docs.len(),
{
    if docs.len() == 0 {
        Seq::empty()
    } else {
        let rest = documents_of(docs.drop_last(), ls);
        if ls.contains(docs.last().locale) {
            rest.push(docs.last())
        } else {
            rest
        }
    }
}

/// The document, if any, as a sequence.
pub open spec fn opt_seq(o: Option<DocumentModel>) -> Seq<DocumentModel> {
    match o {
        Some(d) => seq![d],
        None => Seq::empty(),
    }
}

/// The documents that are neither canonical nor primary and whose root is
/// (`base_root`) or is not (`!base_root`) among `roots`, in order.
pub open spec fn other_documents(
    docs: Seq<DocumentModel>,
    canonical: LocaleModel,
    primaries: Seq<LocaleModel>,
    roots: Seq<RootModel>,
    base_root: bool,
) -> Seq<DocumentModel>
    decreases docs.len(),
{
    if docs.len() == 0 {
        Seq::empty()
    } else {
        let rest = other_documents(docs.drop_last(), canonical, primaries, roots, base_root);
        let d = docs.last();
        if d.locale != canonical && !primaries.contains(d.locale) && roots.contains(root_of(d.locale)) == base_root {
            rest.push(d)
        } else {
            rest
        }
    }
}

/// The documents sorted by role.
pub struct Classification {
    pub canonical: Option<DocumentModel>,
    pub primaries: Seq<DocumentModel>,
    pub variants: Seq<DocumentModel>,
    pub orphans: Seq<DocumentModel>,
}

/// The roots of the canonical and primary documents.
pub open spec fn base_roots(canonical: Option<DocumentModel>, primaries: Seq<DocumentModel>) -> Seq<RootModel> {
    document_roots(opt_seq(canonical) + primaries)
}

/// The roles of the documents: the canonical document is the first of the
/// canonical locale; the primaries are those of a primary locale; of the
/// others, the variants share their root with the canonical or a primary
/// document and the orphans do not.
pub open spec fn classify(docs: Seq<DocumentModel>, canonical: LocaleModel, primaries: Seq<LocaleModel>) -> Classification {
    let c = first_document(docs, canonical);
    let p = documents_of(docs, primaries);
    let roots = base_roots(c, p);
    Classification {
        canonical: c,
        primaries: p,
        variants: other_documents(docs, canonical, primaries, roots, true),
        orphans: other_documents(docs, canonical, primaries, roots, false),
    }
}

/// The locales of those `docs` whose root is `r`, in order.
pub open spec fn locales_with_root(docs: Seq<DocumentModel>, r: RootModel) -> Seq<LocaleModel>
    decreases docs.len(),
{
    if docs.len() == 0 {
        Seq::empty()
    } else {
        let rest = locales_with_root(docs.drop_last(), r);
        if root_of(docs.last().locale) == r {
            rest.push(docs.last().locale)
        } else {
            rest
        }
    }
}

/// One issue for each of `roots`, naming the locales of `orphans` of that
/// root.
pub open spec fn undefined_base_issues_for(roots: Seq<RootModel>, orphans: Seq<DocumentModel>) -> Seq<IssueModel>
    decreases roots.len(),
{
    if roots.len() == 0 {
        Seq::empty()
    } else {
        undefined_base_issues_for(roots.drop_last(), orphans).push(
            undefined_base_issue(roots.last(), locales_with_root(orphans, roots.last())),
        )
    }
}

/// One issue for each root of the orphans, in the order the roots are first
/// met, naming the orphan locales of that root.
pub open spec fn undefined_base_issues(orphans: Seq<DocumentModel>) -> Seq<IssueModel> {
    undefined_base_issues_for(dedup(document_roots(orphans)), orphans)
}

/// The issues of classifying documents: the required locales without a
/// document, then the roots with no base.
pub open spec fn classification_issues(docs: Seq<DocumentModel>, canonical: LocaleModel, primaries: Seq<LocaleModel>) -> Seq<IssueModel> {
    missing_base_issues(docs, seq![canonical] + primaries)
        + undefined_base_issues(classify(docs, canonical, primaries).orphans)
}

/// The documents in the order they are audited: canonical, primaries,
/// variants, orphans.
pub open spec fn audit_order(c: Classification) -> Seq<DocumentModel> {
    opt_seq(c.canonical) + c.primaries + c.variants + c.orphans
}

/// The duplicate identifiers of a document, as issues.
pub open spec fn document_duplicate_issues(d: DocumentModel) -> Seq<IssueModel> {
    duplicate_identifiers_of(d.definitions).map_values(|id: Seq<SegmentModel>| duplicate_identifier_issue(d.locale, id))
}

/// The duplicate identifiers of each document, in order.
pub open spec fn duplicate_issues(docs: Seq<DocumentModel>) -> Seq<IssueModel>
    decreases docs.len(),
{
    if docs.len() == 0 {
        Seq::empty()
    } else {
        duplicate_issues(docs.drop_last()) + document_duplicate_issues(docs.last())
    }
}

/// The invalid references of a document, as issues.
pub open spec fn document_invalid_reference_issues(d: DocumentModel) -> Seq<IssueModel> {
    invalid_references_of(d.definitions).map_values(|id: Seq<SegmentModel>| invalid_reference_issue(d.locale, id))
}

/// The invalid references of each document, in order.
pub open spec fn invalid_reference_issues(docs: Seq<DocumentModel>) -> Seq<IssueModel>
    decreases docs.len(),
{
    if docs.len() == 0 {
        Seq::empty()
    } else {
        invalid_reference_issues(docs.drop_last()) + document_invalid_reference_issues(docs.last())
    }
}

/// The messages and terms a document defines, in the order first met.
pub open spec fn entry_ids(d: DocumentModel) -> Seq<Seq<SegmentModel>> {
    keys(d.definitions.signatures)
}

/// Whether two documents give `id` the same signature.
pub open spec fn signatures_agree(a: DocumentModel, b: DocumentModel, id: Seq<SegmentModel>) -> bool {
    match (lookup(a.definitions.signatures, id), lookup(b.definitions.signatures, id)) {
        (Some(x), Some(y)) => same_signature(x, y),
        (None, None) => true,
        _ => false,
    }
}

/// The `ids` that `target` does not define, as missing translations of
/// `target`, in order.
pub open spec fn missing_issues(ids: Seq<Seq<SegmentModel>>, target: DocumentModel) -> Seq<IssueModel>
    decreases ids.len(),
{
    if ids.len() == 0 {
        Seq::empty()
    } else {
        let rest = missing_issues(ids.drop_last(), target);
        if entry_ids(target).contains(ids.last()) {
            rest
        } else {
            rest.push(missing_translation_issue(target.locale, ids.last()))
        }
    }
}

/// The `ids` that `target` defines with another signature than `base`, as
/// signature mismatches of `target`, in order.
pub open spec fn mismatch_issues(ids: Seq<Seq<SegmentModel>>, base: DocumentModel, target: DocumentModel) -> Seq<IssueModel>
    decreases ids.len(),
{
    if ids.len() == 0 {
        Seq::empty()
    } else {
        let rest = mismatch_issues(ids.drop_last(), base, target);
        if entry_ids(target).contains(ids.last()) && !signatures_agree(base, target, ids.last()) {
            rest.push(signature_mismatch_issue(target.locale, ids.last()))
        } else {
            rest
        }
    }
}

/// The `ids` that `base` does not define, as redundant translations of
/// `target`, in order.
pub open spec fn redundant_issues(ids: Seq<Seq<SegmentModel>>, base: DocumentModel, target: DocumentModel) -> Seq<IssueModel>
    decreases ids.len(),
{
    if ids.len() == 0 {
        Seq::empty()
    } else {
        let rest = redundant_issues(ids.drop_last(), base, target);
        if entry_ids(base).contains(ids.last()) {
            rest
        } else {
            rest.push(redundant_translation_issue(target.locale, ids.last()))
        }
    }
}

/// A primary checked against the canonical document: what it lacks, what
/// it defines differently, and what it has in excess.
pub open spec fn primary_issues(canonical: DocumentModel, primary: DocumentModel) -> Seq<IssueModel> {
    missing_issues(entry_ids(canonical), primary)
        + mismatch_issues(entry_ids(canonical), canonical, primary)
        + redundant_issues(entry_ids(primary), canonical, primary)
}

/// Each primary checked against the canonical document, in order.
pub open spec fn primaries_issues(canonical: DocumentModel, primaries: Seq<DocumentModel>) -> Seq<IssueModel>
    decreases primaries.len(),
{
    if primaries.len() == 0 {
        Seq::empty()
    } else {
        primaries_issues(canonical, primaries.drop_last()) + primary_issues(canonical, primaries.last())
    }
}

/// The primaries checked against the canonical document, if there is one.
pub open spec fn canonical_to_primary_issues(c: Classification) -> Seq<IssueModel> {
    match c.canonical {
        Some(d) => primaries_issues(d, c.primaries),
        None => Seq::empty(),
    }
}

/// A variant checked against a base of its root: what it defines
/// differently, and what it has in excess (a variant may lack entries).
pub open spec fn variant_issues(base: DocumentModel, variant: DocumentModel) -> Seq<IssueModel> {
    if root_of(variant.locale) == root_of(base.locale) {
        mismatch_issues(entry_ids(base), base, variant) + redundant_issues(entry_ids(variant), base, variant)
    } else {
        Seq::empty()
    }
}

/// The variants checked against one base, in order.
pub open spec fn base_variant_issues(base: DocumentModel, variants: Seq<DocumentModel>) -> Seq<IssueModel>
    decreases variants.len(),
{
    if variants.len() == 0 {
        Seq::empty()
    } else {
        base_variant_issues(base, variants.drop_last()) + variant_issues(base, variants.last())
    }
}

/// The variants checked against each base, in order.
pub open spec fn bases_variant_issues(bases: Seq<DocumentModel>, variants: Seq<DocumentModel>) -> Seq<IssueModel>
    decreases bases.len(),
{
    if bases.len() == 0 {
        Seq::empty()
    } else {
        bases_variant_issues(bases.drop_last(), variants) + base_variant_issues(bases.last(), variants)
    }
}

/// The variants checked against the canonical and primary documents.
pub open spec fn base_to_variant_issues(c: Classification) -> Seq<IssueModel> {
    bases_variant_issues(opt_seq(c.canonical) + c.primaries, c.variants)
}

/// The issues of auditing classified documents: duplicates, invalid
/// references, primaries against the canonical document, variants against
/// their bases.
pub open spec fn audit_issues(c: Classification) -> Seq<IssueModel> {
    duplicate_issues(audit_order(c))
        + invalid_reference_issues(audit_order(c))
        + canonical_to_primary_issues(c)
        + base_to_variant_issues(c)
}

} // verus!
