//! What holds of every audit, proved over the models of `rules`.
use vstd::prelude::*;
use crate::assoc::{upsert, dedup, keys_unique, lemma_dedup, lemma_push_contains, lemma_upsert, lookup};
use crate::config::{merged_settings, ArgsModel, ConfigInclusionStyle, TomlModel};
use crate::definitions::{bracketed, insert_path, is_duplicate, is_invalid_reference, record, same_signature, signature_or_empty, stack_push, stack_root, step, top, walk_definitions, with_has_value, with_signature_path, DefinitionsModel, SignatureModel};
use crate::walk::EventModel;
use crate::dioxus::{file_locale_after, locale_call, locales_text, relative_to_target, stem_text, DioxusModel};
use crate::text::{concat_texts, padded};
use crate::report::{issue_line, issues_with_locale, kind_after, language_lines, locale_after, locale_lines, report_text, workspace_lines};
use crate::workspace::{locales_of_files, orphans_of, roots_of_locales, variants_of, WorkspaceModel};
use crate::usage::{visit_all, visit_insert, visit_step, VisitorModel};
use crate::integrity::IdentifierModel;
use crate::document::{DocumentModel, FileModel, ParsedModel};
use crate::identifier::{normalize_path, SegmentModel};
use crate::issue::{issue_locale, undefined_base_issue, SubjectModel, missing_base_issue, missing_translation_issue, parse_error_issue, redundant_translation_issue, signature_mismatch_issue, IssueModel, Kind};
use crate::locale::{locale_text, root_of, LocaleModel, RootModel};
use crate::paths::file_name_of;
use crate::analysis::{grouped_by_locale, locale_key_of};
use crate::settings::{defaulted, reference_candidates, reference_choice, reference_file_name, text_path_after, InterimModel};
use crate::sorting::{insert_before, insertion_sorted, lemma_insertion_sorted_contains, lemma_insertion_sorted_len};
use crate::error::ErrorModel;
use crate::rules::{primaries_issues, undefined_base_issues, undefined_base_issues_for, locales_with_root, document_roots, base_roots, base_to_variant_issues, base_variant_issues, bases_variant_issues, classify, collected_documents, document_locales, documents_of, entry_ids, file_locales, missing_base_issues, missing_issues, mismatch_issues, opt_seq, other_documents, parse_error_issues, primary_issues, redundant_issues, signatures_agree, variant_issues, Classification};

verus! {

/// Normalizing an identifier twice is normalizing it once.
pub proof fn law_normalize_idempotent(p: Seq<SegmentModel>)
    ensures
        normalize_path(normalize_path(p)) == normalize_path(p),
{
    assert(normalize_path(normalize_path(p)) =~= normalize_path(p));
}

/// A normalized identifier names no default variant.
pub proof fn law_normalized_has_no_default_variant(p: Seq<SegmentModel>)
    ensures
        forall|i: int| 0 <= i < normalize_path(p).len() ==> !(#[trigger] normalize_path(p)[i] is DefaultVariant),
{
}

/// Each file that fails to parse is reported once, and nothing else is
/// reported.
pub proof fn law_parse_errors(files: Seq<ParsedModel>)
    ensures
        forall|i: IssueModel| parse_error_issues(files).contains(i) <==> exists|k: int|
            0 <= k < files.len() && files[k].walks is Err && i == parse_error_issue(#[trigger] files[k]),
    decreases files.len(),
{
    if files.len() > 0 {
        let p = files.drop_last();
        law_parse_errors(p);
        assert forall|i: IssueModel| parse_error_issues(files).contains(i) <==> exists|k: int|
            0 <= k < files.len() && files[k].walks is Err && i == parse_error_issue(#[trigger] files[k]) by {
            lemma_push_contains(parse_error_issues(p), parse_error_issue(files.last()), i);
            if exists|k: int| 0 <= k < files.len() && files[k].walks is Err && i == parse_error_issue(#[trigger] files[k]) {
                let k = choose|k: int| 0 <= k < files.len() && files[k].walks is Err && i == parse_error_issue(#[trigger] files[k]);
                if k < files.len() - 1 {
                    assert(p[k] == files[k]);
                    assert(exists|q: int| 0 <= q < p.len() && p[q].walks is Err && i == parse_error_issue(#[trigger] p[q]));
                }
            }
            if parse_error_issues(p).contains(i) {
                let k = choose|k: int| 0 <= k < p.len() && p[k].walks is Err && i == parse_error_issue(#[trigger] p[k]);
                assert(files[k] == p[k]);
            }
        }
    }
}

/// Gathering gives exactly one document for each locale of the files.
pub proof fn law_one_document_per_locale(files: Seq<ParsedModel>)
    ensures
        document_locales(collected_documents(files)).no_duplicates(),
        forall|l: LocaleModel| document_locales(collected_documents(files)).contains(l) <==> file_locales(files).contains(l),
{
    lemma_dedup(file_locales(files));
    assert(document_locales(collected_documents(files)) =~= dedup(file_locales(files)));
}

/// A required locale is reported missing exactly when no document has it.
pub proof fn law_missing_bases(docs: Seq<DocumentModel>, required: Seq<LocaleModel>, l: LocaleModel)
    ensures
        missing_base_issues(docs, required).contains(missing_base_issue(l))
            <==> (required.contains(l) && !document_locales(docs).contains(l)),
    decreases required.len(),
{
    if required.len() > 0 {
        let p = required.drop_last();
        law_missing_bases(docs, p, l);
        lemma_push_contains(missing_base_issues(docs, p), missing_base_issue(required.last()), missing_base_issue(l));
        lemma_push_contains(p, required.last(), l);
        assert(required =~= p.push(required.last()));
        if missing_base_issue(required.last()) == missing_base_issue(l) {
            assert(required.last() == l);
        }
    }
}

/// Every document has one role: the canonical document or a primary, or
/// else exactly one of variant and orphan; a variant shares its root with a
/// base document and an orphan does not.
pub proof fn law_classification_partition(docs: Seq<DocumentModel>, canonical: LocaleModel, primaries: Seq<LocaleModel>, d: DocumentModel)
    requires
        docs.contains(d),
    ensures
        ({
            let c = classify(docs, canonical, primaries);
            &&& (d.locale == canonical || primaries.contains(d.locale)) <==> !(c.variants.contains(d) || c.orphans.contains(d))
            &&& !(c.variants.contains(d) && c.orphans.contains(d))
            &&& primaries.contains(d.locale) <==> c.primaries.contains(d)
            &&& c.variants.contains(d) ==> base_roots(c.canonical, c.primaries).contains(root_of(d.locale))
            &&& c.orphans.contains(d) ==> !base_roots(c.canonical, c.primaries).contains(root_of(d.locale))
        }),
{
    let c = classify(docs, canonical, primaries);
    let roots = base_roots(c.canonical, c.primaries);
    lemma_other_documents(docs, canonical, primaries, roots, true, d);
    lemma_other_documents(docs, canonical, primaries, roots, false, d);
    lemma_documents_of(docs, primaries, d);
}

/// Which documents `other_documents` keeps.
proof fn lemma_other_documents(
    docs: Seq<DocumentModel>,
    canonical: LocaleModel,
    primaries: Seq<LocaleModel>,
    roots: Seq<RootModel>,
    base_root: bool,
    d: DocumentModel,
)
    ensures
        other_documents(docs, canonical, primaries, roots, base_root).contains(d) <==> (docs.contains(d)
            && d.locale != canonical && !primaries.contains(d.locale) && roots.contains(root_of(d.locale)) == base_root),
    decreases docs.len(),
{
    if docs.len() > 0 {
        let p = docs.drop_last();
        lemma_other_documents(p, canonical, primaries, roots, base_root, d);
        lemma_push_contains(other_documents(p, canonical, primaries, roots, base_root), docs.last(), d);
        lemma_push_contains(p, docs.last(), d);
        assert(docs =~= p.push(docs.last()));
    }
}

/// Which documents `documents_of` keeps.
proof fn lemma_documents_of(docs: Seq<DocumentModel>, ls: Seq<LocaleModel>, d: DocumentModel)
    ensures
        documents_of(docs, ls).contains(d) <==> (docs.contains(d) && ls.contains(d.locale)),
    decreases docs.len(),
{
    if docs.len() > 0 {
        let p = docs.drop_last();
        lemma_documents_of(p, ls, d);
        lemma_push_contains(documents_of(p, ls), docs.last(), d);
        lemma_push_contains(p, docs.last(), d);
        assert(docs =~= p.push(docs.last()));
    }
}

/// The entries a primary is reported to lack are exactly the canonical
/// entries it does not define.
pub proof fn law_missing_translations(ids: Seq<Seq<SegmentModel>>, target: DocumentModel, x: Seq<SegmentModel>)
    ensures
        missing_issues(ids, target).contains(missing_translation_issue(target.locale, x))
            <==> (ids.contains(x) && !entry_ids(target).contains(x)),
        forall|i: IssueModel| #[trigger] missing_issues(ids, target).contains(i) ==> i.kind == Kind::MissingTranslation,
    decreases ids.len(),
{
    if ids.len() > 0 {
        let p = ids.drop_last();
        law_missing_translations(p, target, x);
        lemma_push_contains(missing_issues(p, target), missing_translation_issue(target.locale, ids.last()), missing_translation_issue(target.locale, x));
        lemma_push_contains(p, ids.last(), x);
        assert(ids =~= p.push(ids.last()));
        assert forall|i: IssueModel| #[trigger] missing_issues(ids, target).contains(i) implies i.kind == Kind::MissingTranslation by {
            lemma_push_contains(missing_issues(p, target), missing_translation_issue(target.locale, ids.last()), i);
        }
    }
}

/// The entries reported redundant are exactly those the checked document
/// defines and its reference does not.
pub proof fn law_redundant_translations(ids: Seq<Seq<SegmentModel>>, base: DocumentModel, target: DocumentModel, x: Seq<SegmentModel>)
    ensures
        redundant_issues(ids, base, target).contains(redundant_translation_issue(target.locale, x))
            <==> (ids.contains(x) && !entry_ids(base).contains(x)),
        forall|i: IssueModel| #[trigger] redundant_issues(ids, base, target).contains(i) ==> i.kind == Kind::RedundantTranslation,
    decreases ids.len(),
{
    if ids.len() > 0 {
        let p = ids.drop_last();
        law_redundant_translations(p, base, target, x);
        lemma_push_contains(redundant_issues(p, base, target), redundant_translation_issue(target.locale, ids.last()), redundant_translation_issue(target.locale, x));
        lemma_push_contains(p, ids.last(), x);
        assert(ids =~= p.push(ids.last()));
        assert forall|i: IssueModel| #[trigger] redundant_issues(ids, base, target).contains(i) implies i.kind == Kind::RedundantTranslation by {
            lemma_push_contains(redundant_issues(p, base, target), redundant_translation_issue(target.locale, ids.last()), i);
        }
    }
}

/// The entries reported as signature mismatches are exactly those both
/// documents define with different signatures.
pub proof fn law_signature_mismatches(ids: Seq<Seq<SegmentModel>>, base: DocumentModel, target: DocumentModel, x: Seq<SegmentModel>)
    ensures
        mismatch_issues(ids, base, target).contains(signature_mismatch_issue(target.locale, x))
            <==> (ids.contains(x) && entry_ids(target).contains(x) && !signatures_agree(base, target, x)),
        forall|i: IssueModel| #[trigger] mismatch_issues(ids, base, target).contains(i) ==> i.kind == Kind::SignatureMismatch,
    decreases ids.len(),
{
    if ids.len() > 0 {
        let p = ids.drop_last();
        law_signature_mismatches(p, base, target, x);
        lemma_push_contains(mismatch_issues(p, base, target), signature_mismatch_issue(target.locale, ids.last()), signature_mismatch_issue(target.locale, x));
        lemma_push_contains(p, ids.last(), x);
        assert(ids =~= p.push(ids.last()));
        assert forall|i: IssueModel| #[trigger] mismatch_issues(ids, base, target).contains(i) implies i.kind == Kind::SignatureMismatch by {
            lemma_push_contains(mismatch_issues(p, base, target), signature_mismatch_issue(target.locale, ids.last()), i);
        }
    }
}

/// A primary checked against the canonical document is reported missing
/// exactly the canonical entries it lacks, redundant exactly the entries
/// the canonical document lacks, and mismatched exactly the shared entries
/// whose signatures differ.
pub proof fn law_primary_issues(canonical: DocumentModel, primary: DocumentModel, x: Seq<SegmentModel>)
    ensures
        primary_issues(canonical, primary).contains(missing_translation_issue(primary.locale, x))
            <==> (entry_ids(canonical).contains(x) && !entry_ids(primary).contains(x)),
        primary_issues(canonical, primary).contains(redundant_translation_issue(primary.locale, x))
            <==> (entry_ids(primary).contains(x) && !entry_ids(canonical).contains(x)),
        primary_issues(canonical, primary).contains(signature_mismatch_issue(primary.locale, x))
            <==> (entry_ids(canonical).contains(x) && entry_ids(primary).contains(x) && !signatures_agree(canonical, primary, x)),
{
    let m = missing_issues(entry_ids(canonical), primary);
    let s = mismatch_issues(entry_ids(canonical), canonical, primary);
    let r = redundant_issues(entry_ids(primary), canonical, primary);
    law_missing_translations(entry_ids(canonical), primary, x);
    law_signature_mismatches(entry_ids(canonical), canonical, primary, x);
    law_redundant_translations(entry_ids(primary), canonical, primary, x);
    lemma_concat3_contains(m, s, r, missing_translation_issue(primary.locale, x));
    lemma_concat3_contains(m, s, r, redundant_translation_issue(primary.locale, x));
    lemma_concat3_contains(m, s, r, signature_mismatch_issue(primary.locale, x));
}

/// What the concatenation of three sequences holds.
proof fn lemma_concat3_contains<A>(a: Seq<A>, b: Seq<A>, c: Seq<A>, x: A)
    ensures
        (a + b + c).contains(x) <==> (a.contains(x) || b.contains(x) || c.contains(x)),
{
    let s = a + b + c;
    if a.contains(x) {
        let k = choose|k: int| 0 <= k < a.len() && a[k] == x;
        assert(s[k] == x);
    }
    if b.contains(x) {
        let k = choose|k: int| 0 <= k < b.len() && b[k] == x;
        assert(s[a.len() + k] == x);
    }
    if c.contains(x) {
        let k = choose|k: int| 0 <= k < c.len() && c[k] == x;
        assert(s[a.len() + b.len() + k] == x);
    }
    if s.contains(x) {
        let k = choose|k: int| 0 <= k < s.len() && s[k] == x;
        if k < a.len() {
            assert(a[k] == x);
        } else if k < a.len() + b.len() {
            assert(b[k - a.len()] == x);
        } else {
            assert(c[k - a.len() - b.len()] == x);
        }
    }
}

/// A document checked against itself has no issue.
pub proof fn law_self_comparison(d: DocumentModel)
    ensures
        primary_issues(d, d).len() == 0,
        variant_issues(d, d).len() == 0,
{
    lemma_no_missing(entry_ids(d), d);
    lemma_no_mismatch(entry_ids(d), d);
    lemma_no_redundant(entry_ids(d), d);
    assert(primary_issues(d, d) =~= Seq::<IssueModel>::empty());
    assert(variant_issues(d, d) =~= Seq::<IssueModel>::empty());
}

/// Nothing is missing of identifiers a document defines.
proof fn lemma_no_missing(ids: Seq<Seq<SegmentModel>>, d: DocumentModel)
    requires
        forall|k: int| 0 <= k < ids.len() ==> entry_ids(d).contains(#[trigger] ids[k]),
    ensures
        missing_issues(ids, d).len() == 0,
    decreases ids.len(),
{
    if ids.len() > 0 {
        let p = ids.drop_last();
        assert forall|k: int| 0 <= k < p.len() implies entry_ids(d).contains(#[trigger] p[k]) by {
            assert(p[k] == ids[k]);
        }
        lemma_no_missing(p, d);
        assert(entry_ids(d).contains(ids[ids.len() - 1]));
    }
}

/// Nothing is redundant of identifiers a document defines.
proof fn lemma_no_redundant(ids: Seq<Seq<SegmentModel>>, d: DocumentModel)
    requires
        forall|k: int| 0 <= k < ids.len() ==> entry_ids(d).contains(#[trigger] ids[k]),
    ensures
        redundant_issues(ids, d, d).len() == 0,
    decreases ids.len(),
{
    if ids.len() > 0 {
        let p = ids.drop_last();
        assert forall|k: int| 0 <= k < p.len() implies entry_ids(d).contains(#[trigger] p[k]) by {
            assert(p[k] == ids[k]);
        }
        lemma_no_redundant(p, d);
        assert(entry_ids(d).contains(ids[ids.len() - 1]));
    }
}

/// A document's signatures agree with themselves.
proof fn lemma_no_mismatch(ids: Seq<Seq<SegmentModel>>, d: DocumentModel)
    ensures
        mismatch_issues(ids, d, d).len() == 0,
    decreases ids.len(),
{
    if ids.len() > 0 {
        let p = ids.drop_last();
        lemma_no_mismatch(p, d);
        let x = ids.last();
        match lookup(d.definitions.signatures, x) {
            Some(s) => {
                assert(s.paths.to_set() == s.paths.to_set());
                assert(same_signature(s, s));
            },
            None => {},
        }
        assert(signatures_agree(d, d, x));
    }
}

/// A variant is never reported missing a translation: it may lack entries
/// of its base.
pub proof fn law_variants_may_lack_entries(c: Classification)
    ensures
        forall|i: IssueModel| #[trigger] base_to_variant_issues(c).contains(i)
            ==> i.kind == Kind::SignatureMismatch || i.kind == Kind::RedundantTranslation,
{
    lemma_bases_variant_kinds(opt_seq(c.canonical) + c.primaries, c.variants);
}

/// The kinds of the issues of variants checked against bases.
proof fn lemma_bases_variant_kinds(bases: Seq<DocumentModel>, variants: Seq<DocumentModel>)
    ensures
        forall|i: IssueModel| #[trigger] bases_variant_issues(bases, variants).contains(i)
            ==> i.kind == Kind::SignatureMismatch || i.kind == Kind::RedundantTranslation,
    decreases bases.len(),
{
    if bases.len() > 0 {
        lemma_bases_variant_kinds(bases.drop_last(), variants);
        lemma_base_variant_kinds(bases.last(), variants);
        assert forall|i: IssueModel| #[trigger] bases_variant_issues(bases, variants).contains(i)
            implies i.kind == Kind::SignatureMismatch || i.kind == Kind::RedundantTranslation by {
            lemma_concat_contains(bases_variant_issues(bases.drop_last(), variants), base_variant_issues(bases.last(), variants), i);
        }
    }
}

/// The kinds of the issues of variants checked against one base.
proof fn lemma_base_variant_kinds(base: DocumentModel, variants: Seq<DocumentModel>)
    ensures
        forall|i: IssueModel| #[trigger] base_variant_issues(base, variants).contains(i)
            ==> i.kind == Kind::SignatureMismatch || i.kind == Kind::RedundantTranslation,
    decreases variants.len(),
{
    if variants.len() > 0 {
        let v = variants.last();
        lemma_base_variant_kinds(base, variants.drop_last());
        law_signature_mismatches(entry_ids(base), base, v, Seq::empty());
        law_redundant_translations(entry_ids(v), base, v, Seq::empty());
        assert forall|i: IssueModel| #[trigger] base_variant_issues(base, variants).contains(i)
            implies i.kind == Kind::SignatureMismatch || i.kind == Kind::RedundantTranslation by {
            lemma_concat_contains(base_variant_issues(base, variants.drop_last()), variant_issues(base, v), i);
            if root_of(v.locale) == root_of(base.locale) {
                lemma_concat_contains(mismatch_issues(entry_ids(base), base, v), redundant_issues(entry_ids(v), base, v), i);
            }
        }
    }
}

/// What the concatenation of two sequences holds.
proof fn lemma_concat_contains<A>(a: Seq<A>, b: Seq<A>, x: A)
    ensures
        (a + b).contains(x) <==> (a.contains(x) || b.contains(x)),
{
    let s = a + b;
    if a.contains(x) {
        let k = choose|k: int| 0 <= k < a.len() && a[k] == x;
        assert(s[k] == x);
    }
    if b.contains(x) {
        let k = choose|k: int| 0 <= k < b.len() && b[k] == x;
        assert(s[a.len() + k] == x);
    }
    if s.contains(x) {
        let k = choose|k: int| 0 <= k < s.len() && s[k] == x;
        if k < a.len() {
            assert(a[k] == x);
        } else {
            assert(b[k - a.len()] == x);
        }
    }
}

/// Arguments that add and replace nothing leave the settings unchanged.
pub proof fn law_merge_without_arguments(t: TomlModel, a: ArgsModel)
    requires
        a.fluent_sources.len() == 0,
        a.canonical is None,
        a.primaries.len() == 0,
        a.rust_sources.len() == 0,
        a.config_inclusion is None,
    ensures
        merged_settings(t, a) == t,
{
    assert(merged_settings(t, a).fluent_sources =~= t.fluent_sources);
    assert(merged_settings(t, a).primaries =~= t.primaries);
    assert(merged_settings(t, a).rust_sources =~= t.rust_sources);
}

/// Arguments only add to the configured sources and primaries: the
/// configured ones come first, in their order.
pub proof fn law_merge_keeps_configured(t: TomlModel, a: ArgsModel)
    ensures
        merged_settings(t, a).fluent_sources.take(t.fluent_sources.len() as int) == t.fluent_sources,
        merged_settings(t, a).primaries.take(t.primaries.len() as int) == t.primaries,
        merged_settings(t, a).rust_sources.take(t.rust_sources.len() as int) == t.rust_sources,
{
    assert(merged_settings(t, a).fluent_sources.take(t.fluent_sources.len() as int) =~= t.fluent_sources);
    assert(merged_settings(t, a).primaries.take(t.primaries.len() as int) =~= t.primaries);
    assert(merged_settings(t, a).rust_sources.take(t.rust_sources.len() as int) =~= t.rust_sources);
}

/// Giving the defaults to a table that has them changes nothing: the
/// defaulted table is its own default, whatever files are found.
pub proof fn law_defaults_idempotent(m: InterimModel, files: Seq<Seq<char>>, later: Seq<Seq<char>>)
    requires
        defaulted(m, files) is Ok,
    ensures
        defaulted(defaulted(m, files)->Ok_0, later) == defaulted(m, files),
{
}

/// The files among which the reference is sought, in their order, all
/// carry the reference's name.
proof fn lemma_reference_candidates(files: Seq<Seq<char>>, locale: Seq<char>)
    ensures
        forall|i: int|
            0 <= i < reference_candidates(files, locale).len() ==> files.contains(
                #[trigger] reference_candidates(files, locale)[i],
            ) && file_name_of(reference_candidates(files, locale)[i]) == file_name_of(
                reference_file_name(locale),
            ),
    decreases files.len(),
{
    if files.len() > 0 {
        let rest = reference_candidates(files.drop_last(), locale);
        let all = reference_candidates(files, locale);
        lemma_reference_candidates(files.drop_last(), locale);
        assert forall|i: int| 0 <= i < all.len() implies files.contains(#[trigger] all[i])
            && file_name_of(all[i]) == file_name_of(reference_file_name(locale)) by {
            if i < rest.len() {
                assert(all[i] == rest[i]);
                let k = choose|k: int| 0 <= k < files.drop_last().len() && files.drop_last()[k] == rest[i];
                assert(files[k] == all[i]);
            } else {
                assert(files[files.len() - 1] == all[i]);
            }
        }
    }
}

/// A reference that is chosen is one of the files, and its final
/// component is the locale's file name.
pub proof fn law_reference_named_after_locale(files: Seq<Seq<char>>, locale: Seq<char>)
    requires
        reference_choice(files, locale) is Ok,
    ensures
        files.contains(reference_choice(files, locale)->Ok_0),
        file_name_of(reference_choice(files, locale)->Ok_0) == file_name_of(reference_file_name(locale)),
{
    let c = reference_candidates(files, locale);
    let sorted = insertion_sorted(c, text_path_after());
    lemma_reference_candidates(files, locale);
    lemma_insertion_sorted_contains(c, text_path_after());
    assert(c.contains(sorted[0]));
    let k = choose|k: int| 0 <= k < c.len() && c[k] == sorted[0];
    assert(files.contains(c[k]));
}

/// Grouping by locale keeps one group per locale.
proof fn lemma_locale_groups_unique(paths: Seq<Seq<char>>)
    ensures
        keys_unique(grouped_by_locale(paths)),
    decreases paths.len(),
{
    if paths.len() > 0 {
        let g = grouped_by_locale(paths.drop_last());
        let k = locale_key_of(paths.last());
        lemma_locale_groups_unique(paths.drop_last());
        let v = match lookup(g, k) {
            Some(ps) => ps.push(paths.last()),
            None => seq![paths.last()],
        };
        lemma_upsert(g, k, v);
    }
}

/// Every analysed path lies in the group of the locale its name gives.
pub proof fn law_paths_grouped_by_their_locale(paths: Seq<Seq<char>>, p: Seq<char>)
    requires
        paths.contains(p),
    ensures
        lookup(grouped_by_locale(paths), locale_key_of(p)) is Some,
        (lookup(grouped_by_locale(paths), locale_key_of(p))->Some_0).contains(p),
    decreases paths.len(),
{
    let g = grouped_by_locale(paths.drop_last());
    let k = locale_key_of(paths.last());
    let v = match lookup(g, k) {
        Some(ps) => ps.push(paths.last()),
        None => seq![paths.last()],
    };
    lemma_locale_groups_unique(paths.drop_last());
    lemma_upsert(g, k, v);
    if p == paths.last() {
        assert(v[v.len() - 1] == p);
    } else {
        let i = choose|i: int| 0 <= i < paths.len() && paths[i] == p;
        assert(paths.drop_last()[i] == p);
        law_paths_grouped_by_their_locale(paths.drop_last(), p);
        let kp = locale_key_of(p);
        if kp == k {
            let ps = lookup(g, k)->Some_0;
            let j = choose|j: int| 0 <= j < ps.len() && ps[j] == p;
            assert(v[j] == p);
        }
    }
}

/// Every reference recorded by a walk names a message, a term or an
/// attribute: none ends with a variable.
proof fn lemma_references_name_no_variable(events: Seq<EventModel>)
    ensures
        forall|i: int|
            0 <= i < walk_definitions(events).references.len() ==> {
                let r = #[trigger] walk_definitions(events).references[i];
                r.len() == 0 || !(r.last() is Variable)
            },
    decreases events.len(),
{
    if events.len() > 0 {
        let m = walk_definitions(events.drop_last());
        lemma_references_name_no_variable(events.drop_last());
        let e = events.last();
        let m2 = walk_definitions(events);
        assert(m2 == step(m, e));
        assert forall|i: int| 0 <= i < m2.references.len() implies {
            let r = #[trigger] m2.references[i];
            r.len() == 0 || !(r.last() is Variable)
        } by {
            if i < m.references.len() {
                match e {
                    EventModel::MessageReference(_) => assert(m2.references[i] == m.references[i]),
                    EventModel::TermReference(_) => assert(m2.references[i] == m.references[i]),
                    EventModel::AttributeAccessor(_) => assert(m2.references[i] == m.references[i]),
                    _ => {},
                }
            }
        }
    }
}

/// A variable reference (`{ $x }`) is never reported as an invalid
/// reference: every invalid reference names a message, a term or an
/// attribute.
pub proof fn law_variables_are_never_invalid_references(events: Seq<EventModel>, r: Seq<SegmentModel>)
    requires
        is_invalid_reference(walk_definitions(events), r),
    ensures
        r.len() == 0 || !(r.last() is Variable),
{
    lemma_references_name_no_variable(events);
    let refs = walk_definitions(events).references;
    let i = choose|i: int| 0 <= i < refs.len() && refs[i] == r;
    assert(refs[i] == r);
}

/// A duplicated identifier is normalized: it names no default variant.
pub proof fn law_duplicates_name_no_default_variant(m: DefinitionsModel, n: Seq<SegmentModel>)
    requires
        is_duplicate(m, n),
    ensures
        forall|i: int| 0 <= i < n.len() ==> !(#[trigger] n[i] is DefaultVariant),
{
    let i = choose|i: int|
        0 <= i < m.entries.len() && normalize_path(#[trigger] m.entries[i].0) == n && (m.entries[i].1.len() > 1
            || exists|j: int| 0 <= j < m.entries.len() && j != i && normalize_path(#[trigger] m.entries[j].0) == n);
    law_normalized_has_no_default_variant(m.entries[i].0);
}

/// The issues made for `roots` are, position by position, the undefined-base
/// issue of each root with the orphan locales of that root.
proof fn lemma_undefined_base_issues_for(roots: Seq<RootModel>, orphans: Seq<DocumentModel>)
    ensures
        undefined_base_issues_for(roots, orphans).len() == roots.len(),
        forall|i: int|
            0 <= i < roots.len() ==> #[trigger] undefined_base_issues_for(roots, orphans)[i] == undefined_base_issue(
                roots[i],
                locales_with_root(orphans, roots[i]),
            ),
    decreases roots.len(),
{
    if roots.len() > 0 {
        lemma_undefined_base_issues_for(roots.drop_last(), orphans);
    }
}

/// Classification reports one undefined-base issue for each language root
/// of the orphan documents and for no other root: each such issue names its
/// root, and no two name the same root.
pub proof fn law_one_undefined_base_per_orphan_root(orphans: Seq<DocumentModel>, r: RootModel)
    ensures
        (exists|i: int|
            0 <= i < undefined_base_issues(orphans).len() && #[trigger] undefined_base_issues(orphans)[i].subject
                == SubjectModel::LanguageRoot(r)) <==> document_roots(orphans).contains(r),
        forall|i: int|
            0 <= i < undefined_base_issues(orphans).len() ==> (#[trigger] undefined_base_issues(orphans)[i]).kind
                == Kind::UndefinedBase,
        forall|i: int, j: int|
            0 <= i < undefined_base_issues(orphans).len() && 0 <= j < undefined_base_issues(orphans).len()
                && #[trigger] undefined_base_issues(orphans)[i].subject == #[trigger] undefined_base_issues(orphans)[j].subject
                ==> i == j,
{
    let roots = dedup(document_roots(orphans));
    let u = undefined_base_issues(orphans);
    lemma_dedup(document_roots(orphans));
    lemma_undefined_base_issues_for(roots, orphans);
    assert forall|i: int| 0 <= i < u.len() implies (#[trigger] u[i]).kind == Kind::UndefinedBase by {
        assert(u[i] == undefined_base_issue(roots[i], locales_with_root(orphans, roots[i])));
    }
    assert forall|i: int, j: int|
        0 <= i < u.len() && 0 <= j < u.len() && #[trigger] u[i].subject == #[trigger] u[j].subject implies i == j by {
        assert(u[i] == undefined_base_issue(roots[i], locales_with_root(orphans, roots[i])));
        assert(u[j] == undefined_base_issue(roots[j], locales_with_root(orphans, roots[j])));
        assert(roots[i] == roots[j]);
    }
    if document_roots(orphans).contains(r) {
        assert(roots.contains(r));
        let k = choose|k: int| 0 <= k < roots.len() && roots[k] == r;
        assert(u[k] == undefined_base_issue(roots[k], locales_with_root(orphans, roots[k])));
        assert(u[k].subject == SubjectModel::LanguageRoot(r));
    }
    if exists|i: int| 0 <= i < u.len() && #[trigger] u[i].subject == SubjectModel::LanguageRoot(r) {
        let i = choose|i: int| 0 <= i < u.len() && #[trigger] u[i].subject == SubjectModel::LanguageRoot(r);
        assert(u[i] == undefined_base_issue(roots[i], locales_with_root(orphans, roots[i])));
        assert(roots[i] == r);
        assert(roots.contains(r));
    }
}

/// Checking the primaries against the canonical document reports an issue
/// exactly when checking one of them does.
pub proof fn law_primaries_issues_membership(canonical: DocumentModel, primaries: Seq<DocumentModel>, i: IssueModel)
    ensures
        primaries_issues(canonical, primaries).contains(i) <==> exists|k: int|
            0 <= k < primaries.len() && #[trigger] primary_issues(canonical, primaries[k]).contains(i),
    decreases primaries.len(),
{
    if primaries.len() > 0 {
        let p = primaries.drop_last();
        law_primaries_issues_membership(canonical, p, i);
        lemma_concat_contains(primaries_issues(canonical, p), primary_issues(canonical, primaries.last()), i);
        if exists|k: int| 0 <= k < primaries.len() && #[trigger] primary_issues(canonical, primaries[k]).contains(i) {
            let k = choose|k: int| 0 <= k < primaries.len() && #[trigger] primary_issues(canonical, primaries[k]).contains(i);
            if k < p.len() {
                assert(p[k] == primaries[k]);
            }
        }
        if exists|k: int| 0 <= k < p.len() && #[trigger] primary_issues(canonical, p[k]).contains(i) {
            let k = choose|k: int| 0 <= k < p.len() && #[trigger] primary_issues(canonical, p[k]).contains(i);
            assert(primaries[k] == p[k]);
        }
    }
}

/// Checking the variants against one base reports an issue exactly when
/// checking one of them does.
proof fn lemma_base_variant_issues_membership(base: DocumentModel, variants: Seq<DocumentModel>, i: IssueModel)
    ensures
        base_variant_issues(base, variants).contains(i) <==> exists|v: int|
            0 <= v < variants.len() && #[trigger] variant_issues(base, variants[v]).contains(i),
    decreases variants.len(),
{
    if variants.len() > 0 {
        let p = variants.drop_last();
        lemma_base_variant_issues_membership(base, p, i);
        lemma_concat_contains(base_variant_issues(base, p), variant_issues(base, variants.last()), i);
        if exists|v: int| 0 <= v < variants.len() && #[trigger] variant_issues(base, variants[v]).contains(i) {
            let v = choose|v: int| 0 <= v < variants.len() && #[trigger] variant_issues(base, variants[v]).contains(i);
            if v < p.len() {
                assert(p[v] == variants[v]);
            }
        }
        if exists|v: int| 0 <= v < p.len() && #[trigger] variant_issues(base, p[v]).contains(i) {
            let v = choose|v: int| 0 <= v < p.len() && #[trigger] variant_issues(base, p[v]).contains(i);
            assert(variants[v] == p[v]);
        }
    }
}

/// Checking the variants against the bases reports an issue exactly when
/// checking one variant against one base does (and that check reports
/// nothing unless the two share a language root).
pub proof fn law_bases_variant_issues_membership(bases: Seq<DocumentModel>, variants: Seq<DocumentModel>, i: IssueModel)
    ensures
        bases_variant_issues(bases, variants).contains(i) <==> exists|b: int, v: int|
            0 <= b < bases.len() && 0 <= v < variants.len() && #[trigger] variant_issues(bases[b], variants[v]).contains(i),
    decreases bases.len(),
{
    if bases.len() > 0 {
        let p = bases.drop_last();
        law_bases_variant_issues_membership(p, variants, i);
        lemma_base_variant_issues_membership(bases.last(), variants, i);
        lemma_concat_contains(bases_variant_issues(p, variants), base_variant_issues(bases.last(), variants), i);
        if exists|b: int, v: int|
            0 <= b < bases.len() && 0 <= v < variants.len() && #[trigger] variant_issues(bases[b], variants[v]).contains(i) {
            let (b, v) = choose|b: int, v: int|
                0 <= b < bases.len() && 0 <= v < variants.len() && #[trigger] variant_issues(bases[b], variants[v]).contains(i);
            if b < p.len() {
                assert(p[b] == bases[b]);
                assert(variant_issues(p[b], variants[v]).contains(i));
            } else {
                assert(variant_issues(bases.last(), variants[v]).contains(i));
            }
        }
        if exists|b: int, v: int|
            0 <= b < p.len() && 0 <= v < variants.len() && #[trigger] variant_issues(p[b], variants[v]).contains(i) {
            let (b, v) = choose|b: int, v: int|
                0 <= b < p.len() && 0 <= v < variants.len() && #[trigger] variant_issues(p[b], variants[v]).contains(i);
            assert(bases[b] == p[b]);
            assert(variant_issues(bases[b], variants[v]).contains(i));
        }
        if base_variant_issues(bases.last(), variants).contains(i) {
            let v = choose|v: int| 0 <= v < variants.len() && #[trigger] variant_issues(bases.last(), variants[v]).contains(i);
            assert(bases[bases.len() - 1] == bases.last());
            assert(variant_issues(bases[bases.len() - 1], variants[v]).contains(i));
        }
    }
}

/// The reference is chosen exactly when one candidate carries the locale's
/// file name; none gives `CannotFindReferenceFile` with that name, several
/// give `AmbiguousReferenceFiles`.
pub proof fn law_reference_choice_cases(files: Seq<Seq<char>>, locale: Seq<char>)
    ensures
        reference_choice(files, locale) is Ok <==> reference_candidates(files, locale).len() == 1,
        reference_candidates(files, locale).len() == 0 <==> reference_choice(files, locale)
            == Err::<Seq<char>, ErrorModel>(ErrorModel::CannotFindReferenceFile(reference_file_name(locale))),
        reference_candidates(files, locale).len() > 1 <==> (reference_choice(files, locale) matches Err(
            ErrorModel::AmbiguousReferenceFiles(_),
        )),
{
    lemma_insertion_sorted_len(reference_candidates(files, locale), text_path_after());
}

/// Recording a path in the signature of the identifier being walked keeps
/// the signature keys distinct, adds the path to that signature, and loses
/// no path of any signature.
proof fn lemma_with_signature_path(m: DefinitionsModel, q: Seq<SegmentModel>, k: Seq<SegmentModel>, p: Seq<SegmentModel>)
    requires
        keys_unique(m.signatures),
    ensures
        keys_unique(with_signature_path(m, q).signatures),
        lookup(with_signature_path(m, q).signatures, stack_root(m.path_stack)) matches Some(s) && s.paths.contains(q),
        (lookup(m.signatures, k) matches Some(s) && s.paths.contains(p)) ==> (lookup(
            with_signature_path(m, q).signatures,
            k,
        ) matches Some(t) && t.paths.contains(p)),
{
    let root = stack_root(m.path_stack);
    let sig = signature_or_empty(m.signatures, root);
    let paths = insert_path(sig.paths, q);
    lemma_upsert(m.signatures, root, SignatureModel { has_value: sig.has_value, paths });
    if !sig.paths.contains(q) {
        assert(paths[paths.len() - 1] == q);
    }
    if lookup(m.signatures, k) matches Some(s) && s.paths.contains(p) {
        if k == root {
            let j = choose|j: int| 0 <= j < sig.paths.len() && sig.paths[j] == p;
            assert(paths[j] == p);
        }
    }
}

/// Setting whether the identifier being walked has a value keeps the
/// signature keys distinct and loses no path of any signature.
proof fn lemma_with_has_value(m: DefinitionsModel, b: bool, k: Seq<SegmentModel>, p: Seq<SegmentModel>)
    requires
        keys_unique(m.signatures),
    ensures
        keys_unique(with_has_value(m, b).signatures),
        (lookup(m.signatures, k) matches Some(s) && s.paths.contains(p)) ==> (lookup(
            with_has_value(m, b).signatures,
            k,
        ) matches Some(t) && t.paths.contains(p)),
{
    let root = stack_root(m.path_stack);
    let sig = signature_or_empty(m.signatures, root);
    lemma_upsert(m.signatures, root, SignatureModel { has_value: b, paths: sig.paths });
}

/// Recording a definition keeps the signature keys distinct and loses no
/// path of any signature.
proof fn lemma_record(m: DefinitionsModel, seg: SegmentModel, k: Seq<SegmentModel>, p: Seq<SegmentModel>)
    requires
        keys_unique(m.signatures),
    ensures
        keys_unique(record(m, seg).signatures),
        (lookup(m.signatures, k) matches Some(s) && s.paths.contains(p)) ==> (lookup(record(m, seg).signatures, k) matches Some(
            t,
        ) && t.paths.contains(p)),
{
    let stack = stack_push(m.path_stack, seg);
    let m1 = DefinitionsModel { path_stack: stack, ..m };
    match m.current_entry {
        Some(e) => {
            let q = top(stack);
            let texts = match lookup(m.entries, q) {
                Some(t) => t,
                None => Seq::empty(),
            };
            lemma_with_signature_path(DefinitionsModel { entries: upsert(m.entries, q, texts.push(e)), ..m1 }, q, k, p);
        },
        None => {},
    }
}

/// A walk step keeps the signature keys distinct and loses no path of any
/// signature: signatures only grow.
proof fn lemma_step_keeps_signature_paths(m: DefinitionsModel, e: EventModel, k: Seq<SegmentModel>, p: Seq<SegmentModel>)
    requires
        keys_unique(m.signatures),
    ensures
        keys_unique(step(m, e).signatures),
        (lookup(m.signatures, k) matches Some(s) && s.paths.contains(p)) ==> (lookup(step(m, e).signatures, k) matches Some(
            t,
        ) && t.paths.contains(p)),
{
    match e {
        EventModel::Message(name, has_pattern) => {
            lemma_record(m, SegmentModel::Message(name), k, p);
            lemma_with_has_value(record(m, SegmentModel::Message(name)), has_pattern, k, p);
        },
        EventModel::Term(name) => {
            lemma_record(m, SegmentModel::Term(name), k, p);
            lemma_with_has_value(record(m, SegmentModel::Term(name)), true, k, p);
        },
        EventModel::Attribute(name) => lemma_record(m, SegmentModel::Attribute(name), k, p),
        EventModel::Variant(key) => lemma_record(m, SegmentModel::Variant(bracketed(key)), k, p),
        EventModel::DefaultVariant(key) => lemma_record(m, SegmentModel::DefaultVariant(bracketed(key)), k, p),
        EventModel::VariableReference(name) => lemma_with_signature_path(
            m,
            stack_root(m.path_stack).push(SegmentModel::Variable(name)),
            k,
            p,
        ),
        _ => {},
    }
}

/// The signature keys of a walk are distinct.
proof fn lemma_walk_signatures_unique(events: Seq<EventModel>)
    ensures
        keys_unique(walk_definitions(events).signatures),
    decreases events.len(),
{
    if events.len() > 0 {
        lemma_walk_signatures_unique(events.drop_last());
        lemma_step_keeps_signature_paths(walk_definitions(events.drop_last()), events.last(), Seq::empty(), Seq::empty());
    }
}

/// A path in a signature after the first `a` events of a walk is still
/// there after the first `b`.
proof fn lemma_signature_path_persists(events: Seq<EventModel>, a: int, b: int, k: Seq<SegmentModel>, p: Seq<SegmentModel>)
    requires
        0 <= a <= b <= events.len(),
        lookup(walk_definitions(events.take(a)).signatures, k) matches Some(s) && s.paths.contains(p),
    ensures
        lookup(walk_definitions(events.take(b)).signatures, k) matches Some(s) && s.paths.contains(p),
    decreases b - a,
{
    if a < b {
        lemma_signature_path_persists(events, a, b - 1, k, p);
        let prefix = events.take(b);
        assert(prefix.drop_last() =~= events.take(b - 1));
        assert(prefix.last() == events[b - 1]);
        lemma_walk_signatures_unique(events.take(b - 1));
        lemma_step_keeps_signature_paths(walk_definitions(events.take(b - 1)), events[b - 1], k, p);
    }
}

/// A variable used by a message or term is part of its signature: when a
/// walk meets `{ $v }` inside the message or term at `root`, the signature
/// of `root` at the end of the walk holds the path `root / $v`. Documents
/// that differ only in the variables an entry uses therefore differ in
/// that entry's signature.
pub proof fn law_variable_reference_in_signature(events: Seq<EventModel>, i: int, v: Seq<char>)
    requires
        0 <= i < events.len(),
        events[i] == EventModel::VariableReference(v),
    ensures
        ({
            let root = stack_root(walk_definitions(events.take(i)).path_stack);
            lookup(walk_definitions(events).signatures, root) matches Some(s) && s.paths.contains(
                root.push(SegmentModel::Variable(v)),
            )
        }),
{
    let before = walk_definitions(events.take(i));
    let root = stack_root(before.path_stack);
    let q = root.push(SegmentModel::Variable(v));
    lemma_walk_signatures_unique(events.take(i));
    lemma_with_signature_path(before, q, root, q);
    let prefix = events.take(i + 1);
    assert(prefix.drop_last() =~= events.take(i));
    assert(prefix.last() == events[i]);
    lemma_signature_path_persists(events, i + 1, events.len() as int, root, q);
    assert(events.take(events.len() as int) =~= events);
}

/// Meeting an identifier keeps the identifier keys distinct, records the
/// identifier as mentioned by the current entry, and loses no mention.
proof fn lemma_visit_insert(m: VisitorModel, stem: Seq<char>, k: IdentifierModel, x: Seq<char>)
    requires
        keys_unique(m.identifiers),
        visit_insert(m, stem) is Some,
    ensures
        keys_unique((visit_insert(m, stem)->Some_0).identifiers),
        lookup(
            (visit_insert(m, stem)->Some_0).identifiers,
            IdentifierModel { context: m.contexts.last(), name: stem },
        ) matches Some(t) && t.contains(m.entry->Some_0),
        (lookup(m.identifiers, k) matches Some(t) && t.contains(x)) ==> (lookup(
            (visit_insert(m, stem)->Some_0).identifiers,
            k,
        ) matches Some(u) && u.contains(x)),
{
    let e = m.entry->Some_0;
    let id = IdentifierModel { context: m.contexts.last(), name: stem };
    let entries = match lookup(m.identifiers, id) {
        Some(t) => t,
        None => Seq::empty(),
    };
    let new_entries = if entries.contains(e) { entries } else { entries.push(e) };
    lemma_upsert(m.identifiers, id, new_entries);
    if !entries.contains(e) {
        assert(new_entries[new_entries.len() - 1] == e);
    }
    if lookup(m.identifiers, k) matches Some(t) && t.contains(x) {
        if k == id && !entries.contains(e) {
            let j = choose|j: int| 0 <= j < entries.len() && entries[j] == x;
            assert(new_entries[j] == x);
        }
    }
}

/// A visit step that succeeds keeps the identifier keys distinct and loses
/// no mention.
proof fn lemma_visit_step_keeps(m: VisitorModel, ev: EventModel, k: IdentifierModel, x: Seq<char>)
    requires
        keys_unique(m.identifiers),
        visit_step(m, ev) is Some,
    ensures
        keys_unique((visit_step(m, ev)->Some_0).identifiers),
        (lookup(m.identifiers, k) matches Some(t) && t.contains(x)) ==> (lookup(
            (visit_step(m, ev)->Some_0).identifiers,
            k,
        ) matches Some(u) && u.contains(x)),
{
    match ev {
        EventModel::Message(name, _) => lemma_visit_insert(m, name, k, x),
        EventModel::Term(name) => lemma_visit_insert(m, name, k, x),
        EventModel::Attribute(name) => lemma_visit_insert(m, name, k, x),
        EventModel::Variant(key) => lemma_visit_insert(m, "["@ + key + "]"@, k, x),
        EventModel::DefaultVariant(key) => lemma_visit_insert(m, "*["@ + key + "]"@, k, x),
        EventModel::MessageReference(name) => lemma_visit_insert(m, name, k, x),
        EventModel::TermReference(name) => lemma_visit_insert(m, name, k, x),
        EventModel::AttributeAccessor(name) => lemma_visit_insert(m, name, k, x),
        EventModel::VariableReference(name) => lemma_visit_insert(m, name, k, x),
        EventModel::FunctionReference(name) => lemma_visit_insert(m, name, k, x),
        _ => {},
    }
}

/// A walk that succeeds succeeds on every prefix, and its identifier keys
/// are distinct.
proof fn lemma_visit_prefix(events: Seq<EventModel>, a: int)
    requires
        0 <= a <= events.len(),
        visit_all(events) is Some,
    ensures
        visit_all(events.take(a)) is Some,
        keys_unique((visit_all(events.take(a))->Some_0).identifiers),
    decreases events.len() - a,
{
    if a < events.len() {
        let b = events.take(a + 1);
        assert(b.drop_last() =~= events.take(a));
        if a + 1 == events.len() {
            assert(b =~= events);
        }
        lemma_visit_prefix(events, a + 1);
    } else {
        assert(events.take(a) =~= events);
    }
    lemma_visit_unique(events.take(a));
}

/// The identifier keys of a walk that succeeds are distinct.
proof fn lemma_visit_unique(events: Seq<EventModel>)
    requires
        visit_all(events) is Some,
    ensures
        keys_unique((visit_all(events)->Some_0).identifiers),
    decreases events.len(),
{
    if events.len() > 0 {
        lemma_visit_unique(events.drop_last());
        lemma_visit_step_keeps(visit_all(events.drop_last())->Some_0, events.last(), IdentifierModel { context: Seq::empty(), name: Seq::empty() }, Seq::empty());
    }
}

/// A mention recorded after the first `a` events of a successful walk is
/// still recorded after the first `b`.
proof fn lemma_mention_persists(events: Seq<EventModel>, a: int, b: int, k: IdentifierModel, x: Seq<char>)
    requires
        0 <= a <= b <= events.len(),
        visit_all(events) is Some,
        lookup((visit_all(events.take(a))->Some_0).identifiers, k) matches Some(t) && t.contains(x),
    ensures
        lookup((visit_all(events.take(b))->Some_0).identifiers, k) matches Some(t) && t.contains(x),
    decreases b - a,
{
    lemma_visit_prefix(events, a);
    lemma_visit_prefix(events, b);
    if a < b {
        lemma_mention_persists(events, a, b - 1, k, x);
        lemma_visit_prefix(events, b - 1);
        let prefix = events.take(b);
        assert(prefix.drop_last() =~= events.take(b - 1));
        assert(prefix.last() == events[b - 1]);
        lemma_visit_step_keeps(visit_all(events.take(b - 1))->Some_0, events[b - 1], k, x);
    }
}

/// Every reference to a message or term is recorded: when a successful
/// walk meets a reference to `n` inside an entry, the identifiers gathered
/// hold `n` within the names enclosing the reference, with that entry
/// among the entries that mention it.
pub proof fn law_references_are_recorded(events: Seq<EventModel>, i: int, n: Seq<char>)
    requires
        visit_all(events) is Some,
        0 <= i < events.len(),
        events[i] == EventModel::MessageReference(n) || events[i] == EventModel::TermReference(n),
    ensures
        ({
            let before = visit_all(events.take(i))->Some_0;
            &&& before.entry is Some
            &&& before.contexts.len() > 0
            &&& lookup(
                (visit_all(events)->Some_0).identifiers,
                IdentifierModel { context: before.contexts.last(), name: n },
            ) matches Some(t) && t.contains(before.entry->Some_0)
        }),
{
    lemma_visit_prefix(events, i);
    lemma_visit_prefix(events, i + 1);
    let before = visit_all(events.take(i))->Some_0;
    let prefix = events.take(i + 1);
    assert(prefix.drop_last() =~= events.take(i));
    assert(prefix.last() == events[i]);
    assert(visit_step(before, events[i]) == visit_insert(before, n));
    let k = IdentifierModel { context: before.contexts.last(), name: n };
    lemma_visit_insert(before, n, k, Seq::empty());
    lemma_mention_persists(events, i + 1, events.len() as int, k, before.entry->Some_0);
    assert(events.take(events.len() as int) =~= events);
}

/// When each text of `f` is one character longer than that of `g`, the
/// concatenation by `f` is longer by one character per element.
proof fn lemma_concat_texts_longer<A>(s: Seq<A>, f: spec_fn(A) -> Seq<char>, g: spec_fn(A) -> Seq<char>)
    requires
        forall|x: A| #[trigger] f(x).len() == g(x).len() + 1,
    ensures
        concat_texts(s, f).len() == concat_texts(s, g).len() + s.len(),
    decreases s.len(),
{
    if s.len() > 0 {
        lemma_concat_texts_longer(s.drop_last(), f, g);
        assert(f(s.last()).len() == g(s.last()).len() + 1);
    }
}

/// The locale calls of the generated code load each file with the prefix of
/// the inclusion style: `PathBuf::from` for the `PathBuf` style and
/// `include_str!` for the `IncludeStr` style, one call per file in the order
/// of locales. The two styles give, for the same files, texts that differ by
/// one character per file (the two prefixes' lengths), so neither style
/// writes the other's calls.
pub proof fn law_locale_calls_follow_style(m: DioxusModel)
    ensures
        m.settings.config_inclusion == ConfigInclusionStyle::PathBuf ==> locales_text(m) == concat_texts(
            insertion_sorted(m.workspace.fluent_files, file_locale_after()),
            |f: FileModel| locale_call(stem_text(f.path), "PathBuf::from"@, relative_to_target(m, f.path)),
        ),
        m.settings.config_inclusion == ConfigInclusionStyle::IncludeStr ==> locales_text(m) == concat_texts(
            insertion_sorted(m.workspace.fluent_files, file_locale_after()),
            |f: FileModel| locale_call(stem_text(f.path), "include_str!"@, relative_to_target(m, f.path)),
        ),
        locales_text(
            DioxusModel { settings: TomlModel { config_inclusion: ConfigInclusionStyle::PathBuf, ..m.settings }, ..m },
        ).len() == locales_text(
            DioxusModel { settings: TomlModel { config_inclusion: ConfigInclusionStyle::IncludeStr, ..m.settings }, ..m },
        ).len() + m.workspace.fluent_files.len(),
{
    reveal_strlit("PathBuf::from");
    reveal_strlit("include_str!");
    let mp = DioxusModel { settings: TomlModel { config_inclusion: ConfigInclusionStyle::PathBuf, ..m.settings }, ..m };
    let mi = DioxusModel { settings: TomlModel { config_inclusion: ConfigInclusionStyle::IncludeStr, ..m.settings }, ..m };
    let sorted = insertion_sorted(m.workspace.fluent_files, file_locale_after());
    let f = |x: FileModel| locale_call(stem_text(x.path), "PathBuf::from"@, relative_to_target(mp, x.path));
    let g = |x: FileModel| locale_call(stem_text(x.path), "include_str!"@, relative_to_target(mi, x.path));
    assert forall|x: FileModel| #[trigger] f(x).len() == g(x).len() + 1 by {
        assert(relative_to_target(mp, x.path) == relative_to_target(mi, x.path));
    }
    lemma_concat_texts_longer(sorted, f, g);
    lemma_insertion_sorted_len(m.workspace.fluent_files, file_locale_after());
    assert(locales_text(mp) == concat_texts(sorted, f));
    assert(locales_text(mi) == concat_texts(sorted, g));
}

/// `a` occurs in `b` as a contiguous run of characters.
pub open spec fn is_infix(a: Seq<char>, b: Seq<char>) -> bool {
    exists|i: int| 0 <= i && i + a.len() <= b.len() && #[trigger] b.subrange(i, i + a.len()) == a
}

/// A text occurs in itself.
proof fn lemma_infix_self(a: Seq<char>)
    ensures
        is_infix(a, a),
{
    let i: int = 0;
    assert(a.subrange(i, i + a.len()) =~= a);
}

/// What occurs in `b` occurs in any text that holds `b`.
proof fn lemma_infix_in_context(a: Seq<char>, p: Seq<char>, b: Seq<char>, q: Seq<char>)
    requires
        is_infix(a, b),
    ensures
        is_infix(a, p + b + q),
{
    let i = choose|i: int| 0 <= i && i + a.len() <= b.len() && #[trigger] b.subrange(i, i + a.len()) == a;
    let c = p + b + q;
    assert(c.subrange(p.len() + i, p.len() + i + a.len()) =~= b.subrange(i, i + a.len()));
}

/// Occurring in is transitive.
proof fn lemma_infix_trans(a: Seq<char>, b: Seq<char>, c: Seq<char>)
    requires
        is_infix(a, b),
        is_infix(b, c),
    ensures
        is_infix(a, c),
{
    let i = choose|i: int| 0 <= i && i + a.len() <= b.len() && #[trigger] b.subrange(i, i + a.len()) == a;
    let j = choose|j: int| 0 <= j && j + b.len() <= c.len() && #[trigger] c.subrange(j, j + b.len()) == b;
    assert(c.subrange(j + i, j + i + a.len()) =~= b.subrange(i, i + a.len()));
}

/// The text of each element occurs in the concatenation of the texts.
proof fn lemma_concat_texts_infix<A>(s: Seq<A>, f: spec_fn(A) -> Seq<char>, k: int)
    requires
        0 <= k < s.len(),
    ensures
        is_infix(f(s[k]), concat_texts(s, f)),
    decreases s.len(),
{
    let front = concat_texts(s.drop_last(), f);
    lemma_infix_self(f(s[k]));
    if k == s.len() - 1 {
        lemma_infix_in_context(f(s[k]), front, f(s[k]), Seq::empty());
        assert(front + f(s[k]) + Seq::<char>::empty() =~= concat_texts(s, f));
    } else {
        lemma_concat_texts_infix(s.drop_last(), f, k);
        assert(s.drop_last()[k] == s[k]);
        lemma_infix_in_context(f(s[k]), Seq::empty(), front, f(s.last()));
        assert(Seq::<char>::empty() + front + f(s.last()) =~= concat_texts(s, f));
    }
}

/// Inserting keeps every element and adds the inserted one.
proof fn lemma_insert_before_keeps<A>(t: Seq<A>, y: A, after: spec_fn(A, A) -> bool, z: A)
    requires
        t.contains(z) || z == y,
    ensures
        insert_before(t, y, after).contains(z),
    decreases t.len(),
{
    let u = insert_before(t, y, after);
    if t.len() == 0 {
        assert(u[0] == y);
    } else if after(t[0], y) {
        if z == y {
            assert(u[0] == y);
        } else {
            let j = choose|j: int| 0 <= j < t.len() && t[j] == z;
            assert(u[j + 1] == z);
        }
    } else {
        let r = insert_before(t.drop_first(), y, after);
        if z == t[0] {
            assert(u[0] == z);
        } else {
            if t.contains(z) {
                let j = choose|j: int| 0 <= j < t.len() && t[j] == z;
                assert(t.drop_first()[j - 1] == z);
            }
            lemma_insert_before_keeps(t.drop_first(), y, after, z);
            let j = choose|j: int| 0 <= j < r.len() && r[j] == z;
            assert(u[j + 1] == z);
        }
    }
}

/// Sorting keeps every element.
proof fn lemma_insertion_sorted_keeps<A>(s: Seq<A>, after: spec_fn(A, A) -> bool, z: A)
    requires
        s.contains(z),
    ensures
        insertion_sorted(s, after).contains(z),
    decreases s.len(),
{
    let p = s.drop_last();
    if z != s.last() {
        let j = choose|j: int| 0 <= j < s.len() && s[j] == z;
        assert(p[j] == z);
        lemma_insertion_sorted_keeps(p, after, z);
    }
    lemma_insert_before_keeps(insertion_sorted(p, after), s.last(), after, z);
}

/// The issues of a locale hold every issue of that locale.
proof fn lemma_issues_with_locale_keeps(s: Seq<IssueModel>, key: Option<LocaleModel>, x: IssueModel)
    requires
        s.contains(x),
        issue_locale(x) == key,
    ensures
        issues_with_locale(s, key).contains(x),
    decreases s.len(),
{
    let rest = issues_with_locale(s.drop_last(), key);
    if x == s.last() {
        assert(issues_with_locale(s, key)[rest.len() as int] == x);
    } else {
        let j = choose|j: int| 0 <= j < s.len() && s[j] == x;
        assert(s.drop_last()[j] == x);
        lemma_issues_with_locale_keeps(s.drop_last(), key, x);
        let k = choose|k: int| 0 <= k < rest.len() && rest[k] == x;
        if issue_locale(s.last()) == key {
            assert(issues_with_locale(s, key)[k] == x);
        }
    }
}

/// The lines of a locale with an issue show a header without ` - Ok`, and
/// the message line of each of its issues.
proof fn lemma_locale_lines_show_issue(title: Seq<char>, l: LocaleModel, issues: Seq<IssueModel>, x: IssueModel)
    requires
        issues.contains(x),
        issue_locale(x) == Some(l),
    ensures
        is_infix(padded(title, 10) + " "@ + locale_text(l) + "\n"@, locale_lines(title, l, issues)),
        is_infix((issue_line())(x), locale_lines(title, l, issues)),
{
    let own = issues_with_locale(issues, Some(l));
    lemma_issues_with_locale_keeps(issues, Some(l), x);
    let sorted = insertion_sorted(own, kind_after());
    lemma_insertion_sorted_keeps(own, kind_after(), x);
    let k = choose|k: int| 0 <= k < sorted.len() && sorted[k] == x;
    let head = padded(title, 10) + " "@ + locale_text(l) + "\n"@;
    let body = concat_texts(sorted, issue_line());
    assert(locale_lines(title, l, issues) == head + body);
    lemma_infix_self(head);
    lemma_infix_in_context(head, Seq::empty(), head, body);
    assert(Seq::<char>::empty() + head + body =~= head + body);
    lemma_concat_texts_infix(sorted, issue_line(), k);
    lemma_infix_in_context((issue_line())(x), head, body, Seq::empty());
    assert(head + body + Seq::<char>::empty() =~= head + body);
}

/// Every issue of a variant of a language is reported under that language:
/// the variant's line is a header without ` - Ok`, and the issue's message
/// line is in the language's lines.
pub proof fn law_variant_issues_are_reported(
    title: Seq<char>,
    base: LocaleModel,
    ws: WorkspaceModel,
    issues: Seq<IssueModel>,
    v: LocaleModel,
    x: IssueModel,
)
    requires
        variants_of(locales_of_files(ws.fluent_files), base).contains(v),
        issues.contains(x),
        issue_locale(x) == Some(v),
    ensures
        is_infix(padded("Variant:"@, 10) + " "@ + locale_text(v) + "\n"@, language_lines(title, base, ws, issues)),
        is_infix((issue_line())(x), language_lines(title, base, ws, issues)),
{
    let vs = variants_of(locales_of_files(ws.fluent_files), base);
    let sorted = insertion_sorted(vs, locale_after());
    lemma_insertion_sorted_keeps(vs, locale_after(), v);
    let k = choose|k: int| 0 <= k < sorted.len() && sorted[k] == v;
    let f = |w: LocaleModel| locale_lines("Variant:"@, w, issues);
    let lines = locale_lines("Variant:"@, v, issues);
    lemma_locale_lines_show_issue("Variant:"@, v, issues, x);
    lemma_concat_texts_infix(sorted, f, k);
    let front = "Language:  "@ + base.language + "\n"@ + locale_lines(title, base, issues);
    let all = concat_texts(sorted, f);
    assert(language_lines(title, base, ws, issues) == front + all);
    lemma_infix_self(all);
    lemma_infix_in_context(all, front, all, Seq::empty());
    assert(front + all + Seq::<char>::empty() =~= front + all);
    lemma_infix_trans(lines, all, front + all);
    lemma_infix_trans(padded("Variant:"@, 10) + " "@ + locale_text(v) + "\n"@, lines, front + all);
    lemma_infix_trans((issue_line())(x), lines, front + all);
}

/// Every issue of a variant of the canonical locale is in the report, under
/// the canonical language, with its variant's header not marked ` - Ok`.
pub proof fn law_canonical_variant_issues_in_report(ws: WorkspaceModel, issues: Seq<IssueModel>, v: LocaleModel, x: IssueModel)
    requires
        variants_of(locales_of_files(ws.fluent_files), ws.canonical).contains(v),
        issues.contains(x),
        issue_locale(x) == Some(v),
    ensures
        is_infix(padded("Variant:"@, 10) + " "@ + locale_text(v) + "\n"@, report_text(ws, issues)),
        is_infix((issue_line())(x), report_text(ws, issues)),
{
    law_variant_issues_are_reported("Canonical:"@, ws.canonical, ws, issues, v, x);
    let lang = language_lines("Canonical:"@, ws.canonical, ws, issues);
    let front = workspace_lines(issues);
    let back = concat_texts(ws.primaries, |p: LocaleModel| language_lines("Primary:"@, p, ws, issues))
        + concat_texts(
            orphans_of(locales_of_files(ws.fluent_files), roots_of_locales(ws.primaries.push(ws.canonical))),
            |o: LocaleModel| locale_lines("Orphaned:"@, o, issues),
        );
    assert(report_text(ws, issues) =~= front + lang + back);
    lemma_infix_self(lang);
    lemma_infix_in_context(lang, front, lang, back);
    lemma_infix_trans(padded("Variant:"@, 10) + " "@ + locale_text(v) + "\n"@, lang, front + lang + back);
    lemma_infix_trans((issue_line())(x), lang, front + lang + back);
}

} // verus!
