//! The outcome of an audit: the issues found and the documents by role.
use vstd::prelude::*;
use crate::assoc::{has_key, keys, keys_unique, lemma_key_pos, lemma_upsert, lookup, upsert};
use crate::definitions::identifiers_view;
use crate::document::{DocumentModel, FluentDocument};
use crate::identifier::QualifiedIdentifier;
use crate::issue::{issues_view, AuditIssue, IssueModel};
use crate::locale::{locales_view, root_of, LanguageRoot, Locale, LocaleModel};
use crate::rules::entry_ids;
use crate::text::views;
use crate::workspace::{Workspace, WorkspaceModel};

verus! {

/// The role of a document in an audit.
#[derive(Clone, Copy, Debug, PartialEq, Eq, Structural)]
pub enum DocumentRole {
    /// The reference all other documents are compared with.
    Canonical,
    /// A translation checked against the canonical document.
    Primary,
    /// A regional or script variant of a canonical or primary document.
    Variant,
    /// A document whose language root has no canonical or primary document.
    Orphan,
}

/// An audited document, as views.
pub struct AuditedModel {
    pub document: DocumentModel,
    pub role: DocumentRole,
}

/// A document with the role it had in the audit.
pub struct AuditedDocument {
    document: FluentDocument,
    role: DocumentRole,
}

impl View for AuditedDocument {
    type V = AuditedModel;

    closed spec fn view(&self) -> AuditedModel {
        AuditedModel { document: self.document@, role: self.role }
    }
}

impl AuditedDocument {
    /// A document with its role.
    pub fn from_fluent_document(role: DocumentRole, document: &FluentDocument) -> (res: AuditedDocument)
        ensures
            res@ == (AuditedModel { document: document@, role }),
    {
        AuditedDocument { document: document.copy(), role }
    }

    /// A copy of this audited document.
    pub fn copy(&self) -> (res: AuditedDocument)
        ensures
            res@ == self@,
    {
        AuditedDocument { document: self.document.copy(), role: self.role }
    }

    /// The role of the document.
    pub fn role(&self) -> (res: DocumentRole)
        ensures
            res == self@.role,
    {
        self.role
    }

    /// The messages and terms the document defines.
    pub fn identifiers(&self) -> (res: Vec<QualifiedIdentifier>)
        ensures
            identifiers_view(res@) == entry_ids(self@.document),
    {
        self.document.entry_identifiers()
    }

    /// The texts of the entries that define `identifier`.
    pub fn entries(&self, identifier: &QualifiedIdentifier) -> (res: Vec<String>)
        ensures
            views(res@) == match lookup(self@.document.definitions.entries, identifier@) {
                Some(t) => t,
                None => Seq::empty(),
            },
    {
        self.document.entries(identifier)
    }

    /// The locale of the document.
    pub fn locale(&self) -> (res: &Locale)
        ensures
            res@ == self@.document.locale,
    {
        self.document.locale()
    }

    /// The language root of the document's locale.
    pub fn language_root(&self) -> (res: LanguageRoot)
        ensures
            res@ == root_of(self@.document.locale),
    {
        self.document.language_root()
    }
}

/// The views of a sequence of audited documents.
pub open spec fn audited_view(s: Seq<AuditedDocument>) -> Seq<AuditedModel> {
    s.map_values(|d: AuditedDocument| d@)
}

/// The audited documents keyed by locale; a later document of a locale
/// replaces an earlier one.
pub open spec fn keyed_documents(nodes: Seq<AuditedModel>) -> Seq<(LocaleModel, AuditedModel)>
    decreases nodes.len(),
{
    if nodes.len() == 0 {
        Seq::empty()
    } else {
        upsert(keyed_documents(nodes.drop_last()), nodes.last().document.locale, nodes.last())
    }
}

/// Keying by locale keeps one document per locale.
pub proof fn lemma_keyed_documents_unique(nodes: Seq<AuditedModel>)
    ensures
        keys_unique(keyed_documents(nodes)),
    decreases nodes.len(),
{
    if nodes.len() > 0 {
        lemma_keyed_documents_unique(nodes.drop_last());
        lemma_upsert(keyed_documents(nodes.drop_last()), nodes.last().document.locale, nodes.last());
    }
}

/// An audit result, as views.
pub struct ResultModel {
    pub issues: Seq<IssueModel>,
    pub documents: Seq<(LocaleModel, AuditedModel)>,
    pub workspace: WorkspaceModel,
}

/// The issues found by an audit, the audited documents by locale, and the
/// workspace audited.
pub struct AuditResult {
    issues: Vec<AuditIssue>,
    documents: Vec<AuditedDocument>,
    workspace: Workspace,
}

/// The audited documents keyed by their locales.
pub open spec fn documents_by_locale(s: Seq<AuditedDocument>) -> Seq<(LocaleModel, AuditedModel)> {
    s.map_values(|d: AuditedDocument| (d@.document.locale, d@))
}

impl View for AuditResult {
    type V = ResultModel;

    closed spec fn view(&self) -> ResultModel {
        ResultModel {
            issues: issues_view(self.issues@),
            documents: documents_by_locale(self.documents@),
            workspace: self.workspace@,
        }
    }
}

impl AuditResult {
    #[verifier::type_invariant]
    spec fn one_document_per_locale(self) -> bool {
        keys_unique(documents_by_locale(self.documents@))
    }

    /// The result of the given issues and documents; of several documents of
    /// one locale, the last is kept.
    pub(crate) fn new(issues: Vec<AuditIssue>, nodes: Vec<AuditedDocument>, workspace: &Workspace) -> (res: AuditResult)
        ensures
            res@ == (ResultModel {
                issues: issues_view(issues@),
                documents: keyed_documents(audited_view(nodes@)),
                workspace: workspace@,
            }),
    {
        let ghost nv = audited_view(nodes@);
        let mut documents: Vec<AuditedDocument> = Vec::new();
        let n = nodes.len();
        let mut i: usize = 0;
        assert(documents_by_locale(documents@) =~= keyed_documents(nv.take(0)));
        while i < n
            invariant
                n == nodes.len(),
                i <= n,
                nv == audited_view(nodes@),
                documents_by_locale(documents@) == keyed_documents(nv.take(i as int)),
                keys_unique(documents_by_locale(documents@)),
            decreases n - i,
        {
            let ghost before = documents_by_locale(documents@);
            let node = nodes[i].copy();
            assert(node@ == nv[i as int]);
            assert(nv.take(i + 1).drop_last() =~= nv.take(i as int));
            assert(nv.take(i + 1).last() == node@);
            proof { lemma_upsert(before, node@.document.locale, node@); }
            let m = documents.len();
            let mut k: usize = 0;
            while k < m
                invariant
                    m == documents.len(),
                    k <= m,
                    before == documents_by_locale(documents@),
                    forall|j: int| 0 <= j < k ==> documents@[j]@.document.locale != node@.document.locale,
                ensures
                    k <= m,
                    forall|j: int| 0 <= j < k ==> documents@[j]@.document.locale != node@.document.locale,
                    k < m ==> documents@[k as int]@.document.locale == node@.document.locale,
                decreases m - k,
            {
                if documents[k].locale().same_as(node.locale()) {
                    break;
                }
                k += 1;
            }
            let ghost nd = node@;
            if k < m {
                proof { lemma_key_pos(before, nd.document.locale, k as int); }
                documents.set(k, node);
                assert(documents_by_locale(documents@) =~= upsert(before, nd.document.locale, nd));
            } else {
                assert(!has_key(before, nd.document.locale));
                documents.push(node);
                assert(documents_by_locale(documents@) =~= upsert(before, nd.document.locale, nd));
            }
            i += 1;
        }
        assert(nv.take(n as int) =~= nv);
        AuditResult { issues, documents, workspace: workspace.copy() }
    }

    /// Whether the audit found no issue.
    pub fn is_ok(&self) -> (res: bool)
        ensures
            res == (self@.issues.len() == 0),
    {
        self.issues.len() == 0
    }

    /// The workspace audited.
    pub fn workspace(&self) -> (res: &Workspace)
        ensures
            res@ == self@.workspace,
    {
        &self.workspace
    }

    /// The issues found, in order.
    pub fn issues(&self) -> (res: &Vec<AuditIssue>)
        ensures
            issues_view(res@) == self@.issues,
    {
        &self.issues
    }

    /// The canonical locale of the workspace.
    pub fn canonical_locale(&self) -> (res: &Locale)
        ensures
            res@ == self@.workspace.canonical,
    {
        self.workspace.canonical_locale()
    }

    /// The locales that have a document.
    pub fn document_locales(&self) -> (res: Vec<Locale>)
        ensures
            locales_view(res@) == keys(self@.documents),
    {
        let mut res: Vec<Locale> = Vec::new();
        let n = self.documents.len();
        let mut i: usize = 0;
        while i < n
            invariant
                n == self.documents.len(),
                i <= n,
                res.len() == i,
                forall|j: int| 0 <= j < i ==> (#[trigger] res@[j])@ == self.documents@[j]@.document.locale,
            decreases n - i,
        {
            res.push(self.documents[i].locale().copy());
            i += 1;
        }
        assert(locales_view(res@) =~= keys(self@.documents));
        res
    }

    /// The document of `locale`, if there is one.
    pub fn document(&self, locale: &Locale) -> (res: Option<&AuditedDocument>)
        ensures
            match res {
                Some(d) => lookup(self@.documents, locale@) == Some(d@),
                None => lookup(self@.documents, locale@) is None,
            },
    {
        let n = self.documents.len();
        let mut i: usize = 0;
        while i < n
            invariant
                n == self.documents.len(),
                i <= n,
                forall|j: int| 0 <= j < i ==> self.documents@[j]@.document.locale != locale@,
            decreases n - i,
        {
            if self.documents[i].locale().same_as(locale) {
                proof {
                    use_type_invariant(self);
                    lemma_key_pos(self@.documents, locale@, i as int);
                }
                return Some(&self.documents[i]);
            }
            i += 1;
        }
        None
    }
}

} // verus!
