//! The localization problems an audit reports.
use vstd::prelude::*;
use crate::document::{error_description_of, FluentFile, ParsedFluentFile, ParsedModel, RustFile};
use crate::identifier::{path_text, QualifiedIdentifier, SegmentModel};
use crate::locale::{locale_of_path, locale_text, locales_view, root_text, LanguageRoot, Locale, LocaleModel, RootModel};
use crate::text::{concat2, concat3, join, join_strings, views};

verus! {

/// The kind of a localization problem.
#[derive(Clone, Copy, Debug, PartialEq, Eq, Structural, PartialOrd, Ord, Hash)]
pub enum Kind {
    /// A `.ftl` or `.rs` file failed to parse.
    ParseError,
    /// No translation file was found for a locale that is required (the
    /// canonical or a primary locale).
    MissingBase,
    /// Locales of a language root have no canonical or primary document of
    /// that root.
    UndefinedBase,
    /// The same identifier is defined more than once in one document.
    DuplicateIdentifier,
    /// A reference names a message, term or attribute that is not defined.
    InvalidReference,
    /// An entry of the canonical document is missing from a primary.
    MissingTranslation,
    /// An entry of a primary (or variant) is not in the canonical document
    /// (or its base).
    RedundantTranslation,
    /// The attributes, variants or variables of an entry differ from those
    /// of the same entry in the canonical document (or the base).
    SignatureMismatch,
    /// A literal in a `t!`, `te!` or `tid!` macro is not a Fluent identifier.
    MalformedIdentifierLiteral,
    /// A literal in a `dioxus_i18n` macro names an identifier that the
    /// canonical document does not define.
    UndefinedIdentifierLiteral,
}

/// The position of a kind in the order of declaration.
pub open spec fn kind_rank(k: Kind) -> int {
    match k {
        Kind::ParseError => 0,
        Kind::MissingBase => 1,
        Kind::UndefinedBase => 2,
        Kind::DuplicateIdentifier => 3,
        Kind::InvalidReference => 4,
        Kind::MissingTranslation => 5,
        Kind::RedundantTranslation => 6,
        Kind::SignatureMismatch => 7,
        Kind::MalformedIdentifierLiteral => 8,
        Kind::UndefinedIdentifierLiteral => 9,
    }
}

/// The position of a kind in the order of declaration.
pub fn kind_order(k: Kind) -> (res: u8)
    ensures
        res == kind_rank(k),
{
    match k {
        Kind::ParseError => 0,
        Kind::MissingBase => 1,
        Kind::UndefinedBase => 2,
        Kind::DuplicateIdentifier => 3,
        Kind::InvalidReference => 4,
        Kind::MissingTranslation => 5,
        Kind::RedundantTranslation => 6,
        Kind::SignatureMismatch => 7,
        Kind::MalformedIdentifierLiteral => 8,
        Kind::UndefinedIdentifierLiteral => 9,
    }
}

/// What an issue is about.
#[derive(Clone, Debug, PartialEq, Eq, Hash)]
pub enum Subject {
    /// A Fluent file, by its path.
    FluentFile(String),
    /// A Rust source file, by its path.
    RustFile(String),
    /// A locale.
    Locale(Locale),
    /// An entry of the document of a locale.
    Entry(Locale, QualifiedIdentifier),
    /// A language root.
    LanguageRoot(LanguageRoot),
}

/// What an issue is about, as views.
pub enum SubjectModel {
    FluentFile(Seq<char>),
    RustFile(Seq<char>),
    Locale(LocaleModel),
    Entry(LocaleModel, Seq<SegmentModel>),
    LanguageRoot(RootModel),
}

impl View for Subject {
    type V = SubjectModel;

    open spec fn view(&self) -> SubjectModel {
        match self {
            Subject::FluentFile(p) => SubjectModel::FluentFile(p@),
            Subject::RustFile(p) => SubjectModel::RustFile(p@),
            Subject::Locale(l) => SubjectModel::Locale(l@),
            Subject::Entry(l, i) => SubjectModel::Entry(l@, i@),
            Subject::LanguageRoot(r) => SubjectModel::LanguageRoot(r@),
        }
    }
}

/// The text of a subject.
pub open spec fn subject_text(s: SubjectModel) -> Seq<char> {
    match s {
        SubjectModel::FluentFile(p) => p,
        SubjectModel::RustFile(p) => p,
        SubjectModel::Locale(l) => locale_text(l),
        SubjectModel::Entry(l, i) => locale_text(l) + " :: "@ + path_text(i),
        SubjectModel::LanguageRoot(r) => root_text(r),
    }
}

impl Subject {
    /// A copy of this subject.
    pub fn copy(&self) -> (res: Subject)
        ensures
            res@ == self@,
    {
        match self {
            Subject::FluentFile(p) => Subject::FluentFile(p.clone()),
            Subject::RustFile(p) => Subject::RustFile(p.clone()),
            Subject::Locale(l) => Subject::Locale(l.copy()),
            Subject::Entry(l, i) => Subject::Entry(l.copy(), i.copy()),
            Subject::LanguageRoot(r) => Subject::LanguageRoot(r.copy()),
        }
    }

    /// The text of this subject: the path of a file, the text of a locale or
    /// root, or `{locale} :: {identifier}` for an entry.
    pub fn to_text(&self) -> (res: String)
        ensures
            res@ == subject_text(self@),
    {
        match self {
            Subject::FluentFile(p) => p.clone(),
            Subject::RustFile(p) => p.clone(),
            Subject::Locale(l) => l.to_text(),
            Subject::Entry(l, i) => {
                let mut res = l.to_text();
                res.append(" :: ");
                let meta = i.to_meta_string();
                res.append(meta.as_str());
                res
            },
            Subject::LanguageRoot(r) => r.to_text(),
        }
    }
}

/// An issue, as views.
pub struct IssueModel {
    pub kind: Kind,
    pub subject: SubjectModel,
    pub message: Seq<char>,
}

/// A localization problem: what kind it is, what it is about, and a message
/// for people to read.
#[derive(Clone, Debug)]
pub struct AuditIssue {
    kind: Kind,
    subject: Subject,
    message: String,
}

impl View for AuditIssue {
    type V = IssueModel;

    closed spec fn view(&self) -> IssueModel {
        IssueModel { kind: self.kind, subject: self.subject@, message: self.message@ }
    }
}

/// The views of a sequence of issues.
pub open spec fn issues_view(s: Seq<AuditIssue>) -> Seq<IssueModel> {
    s.map_values(|i: AuditIssue| i@)
}

/// A Fluent file failed to parse.
pub open spec fn parse_error_issue(p: ParsedModel) -> IssueModel {
    IssueModel { kind: Kind::ParseError, subject: SubjectModel::FluentFile(p.file.path), message: error_description_of(p) }
}

/// A required locale has no translation file.
pub open spec fn missing_base_issue(l: LocaleModel) -> IssueModel {
    IssueModel {
        kind: Kind::MissingBase,
        subject: SubjectModel::Locale(l),
        message: "no files found for required locale "@ + locale_text(l),
    }
}

/// The texts of a sequence of locales.
pub open spec fn locale_texts(ls: Seq<LocaleModel>) -> Seq<Seq<char>> {
    ls.map_values(|l: LocaleModel| locale_text(l))
}

/// Locales of a language root have no base locale.
pub open spec fn undefined_base_issue(r: RootModel, ls: Seq<LocaleModel>) -> IssueModel {
    IssueModel {
        kind: Kind::UndefinedBase,
        subject: SubjectModel::LanguageRoot(r),
        message: "missing base locale/s for '"@ + join(locale_texts(ls), ", "@) + "'"@,
    }
}

/// An issue about an entry, with the message `{lead}'{identifier}'`.
pub open spec fn entry_issue(kind: Kind, lead: Seq<char>, l: LocaleModel, id: Seq<SegmentModel>) -> IssueModel {
    IssueModel { kind, subject: SubjectModel::Entry(l, id), message: lead + "'"@ + path_text(id) + "'"@ }
}

/// An identifier is defined more than once.
pub open spec fn duplicate_identifier_issue(l: LocaleModel, id: Seq<SegmentModel>) -> IssueModel {
    entry_issue(Kind::DuplicateIdentifier, "multiple definitions for "@, l, id)
}

/// A reference names nothing defined.
pub open spec fn invalid_reference_issue(l: LocaleModel, id: Seq<SegmentModel>) -> IssueModel {
    entry_issue(Kind::InvalidReference, "invalid reference "@, l, id)
}

/// An entry of the canonical document is missing.
pub open spec fn missing_translation_issue(l: LocaleModel, id: Seq<SegmentModel>) -> IssueModel {
    entry_issue(Kind::MissingTranslation, "missing translation "@, l, id)
}

/// An entry is not in the document it is checked against.
pub open spec fn redundant_translation_issue(l: LocaleModel, id: Seq<SegmentModel>) -> IssueModel {
    entry_issue(Kind::RedundantTranslation, "redundant translation "@, l, id)
}

/// An entry's signature differs from the one it is checked against.
pub open spec fn signature_mismatch_issue(l: LocaleModel, id: Seq<SegmentModel>) -> IssueModel {
    entry_issue(Kind::SignatureMismatch, "signature mismatch "@, l, id)
}

/// The locale an issue is about: that of its locale or entry, or the locale
/// a Fluent file's path names; none for Rust files and language roots.
pub open spec fn issue_locale(i: IssueModel) -> Option<LocaleModel> {
    match i.subject {
        SubjectModel::FluentFile(p) => locale_of_path(p),
        SubjectModel::RustFile(_) => None,
        SubjectModel::Locale(l) => Some(l),
        SubjectModel::Entry(l, _) => Some(l),
        SubjectModel::LanguageRoot(_) => None,
    }
}

/// `{lead}'{identifier}'`.
fn quoted_message(lead: &str, identifier: &QualifiedIdentifier) -> (res: String)
    ensures
        res@ == lead@ + "'"@ + path_text(identifier@) + "'"@,
{
    let meta = identifier.to_meta_string();
    let mut res = String::from_str(lead);
    res.append("'");
    res.append(meta.as_str());
    res.append("'");
    res
}

impl AuditIssue {
    /// A Fluent file failed to parse; the message is the parser's error.
    pub fn parse_fluent_file_error(file: &ParsedFluentFile) -> (res: AuditIssue)
        ensures
            res@ == parse_error_issue(file@),
    {
        AuditIssue {
            kind: Kind::ParseError,
            subject: Subject::FluentFile(file.path().clone()),
            message: file.error_description(),
        }
    }

    /// A Rust file failed to parse; the message is the parser's error.
    pub fn parse_rust_file_error(file: &RustFile, error_description: &str) -> (res: AuditIssue)
        ensures
            res@ == (IssueModel {
                kind: Kind::ParseError,
                subject: SubjectModel::RustFile(file@),
                message: error_description@,
            }),
    {
        AuditIssue {
            kind: Kind::ParseError,
            subject: Subject::RustFile(file.path().clone()),
            message: String::from_str(error_description),
        }
    }

    /// A required locale has no translation file.
    pub fn missing_base_translation(locale: &Locale) -> (res: AuditIssue)
        ensures
            res@ == missing_base_issue(locale@),
    {
        let text = locale.to_text();
        AuditIssue {
            kind: Kind::MissingBase,
            subject: Subject::Locale(locale.copy()),
            message: concat2("no files found for required locale ", text.as_str()),
        }
    }

    /// Locales of a language root have no base locale.
    pub fn undefined_base_locale(root: &LanguageRoot, locales: &Vec<Locale>) -> (res: AuditIssue)
        ensures
            res@ == undefined_base_issue(root@, locales_view(locales@)),
    {
        let mut texts: Vec<String> = Vec::new();
        let n = locales.len();
        let mut i: usize = 0;
        while i < n
            invariant
                n == locales.len(),
                i <= n,
                texts.len() == i,
                forall|j: int| 0 <= j < i ==> texts@[j]@ == locale_text(locales@[j]@),
            decreases n - i,
        {
            texts.push(locales[i].to_text());
            i += 1;
        }
        assert(views(texts@) =~= locale_texts(locales_view(locales@)));
        let joined = join_strings(&texts, ", ");
        AuditIssue {
            kind: Kind::UndefinedBase,
            subject: Subject::LanguageRoot(root.copy()),
            message: concat3("missing base locale/s for '", joined.as_str(), "'"),
        }
    }

    /// An identifier is defined more than once in the document of a locale.
    pub fn duplicate_identifier(locale: &Locale, identifier: &QualifiedIdentifier) -> (res: AuditIssue)
        ensures
            res@ == duplicate_identifier_issue(locale@, identifier@),
    {
        AuditIssue {
            kind: Kind::DuplicateIdentifier,
            subject: Subject::Entry(locale.copy(), identifier.copy()),
            message: quoted_message("multiple definitions for ", identifier),
        }
    }

    /// A reference names nothing defined in the document of a locale.
    pub fn invalid_reference(locale: &Locale, identifier: &QualifiedIdentifier) -> (res: AuditIssue)
        ensures
            res@ == invalid_reference_issue(locale@, identifier@),
    {
        AuditIssue {
            kind: Kind::InvalidReference,
            subject: Subject::Entry(locale.copy(), identifier.copy()),
            message: quoted_message("invalid reference ", identifier),
        }
    }

    /// An entry of the canonical document is missing from a locale.
    pub fn missing_translation(locale: &Locale, identifier: &QualifiedIdentifier) -> (res: AuditIssue)
        ensures
            res@ == missing_translation_issue(locale@, identifier@),
    {
        AuditIssue {
            kind: Kind::MissingTranslation,
            subject: Subject::Entry(locale.copy(), identifier.copy()),
            message: quoted_message("missing translation ", identifier),
        }
    }

    /// An entry of a locale is not in the document it is checked against.
    pub fn redundant_translation(locale: &Locale, identifier: &QualifiedIdentifier) -> (res: AuditIssue)
        ensures
            res@ == redundant_translation_issue(locale@, identifier@),
    {
        AuditIssue {
            kind: Kind::RedundantTranslation,
            subject: Subject::Entry(locale.copy(), identifier.copy()),
            message: quoted_message("redundant translation ", identifier),
        }
    }

    /// An entry's signature differs from the one it is checked against.
    pub fn signature_mismatch(locale: &Locale, identifier: &QualifiedIdentifier) -> (res: AuditIssue)
        ensures
            res@ == signature_mismatch_issue(locale@, identifier@),
    {
        AuditIssue {
            kind: Kind::SignatureMismatch,
            subject: Subject::Entry(locale.copy(), identifier.copy()),
            message: quoted_message("signature mismatch ", identifier),
        }
    }

    /// A literal in a Rust file names an identifier the canonical document
    /// does not define.
    pub fn undefined_identifier_literal(file: &RustFile, identifier: &QualifiedIdentifier) -> (res: AuditIssue)
        ensures
            res@ == (IssueModel {
                kind: Kind::UndefinedIdentifierLiteral,
                subject: SubjectModel::RustFile(file@),
                message: "identifier literal "@ + path_text(identifier@) + " is not defined in the canonical document"@,
            }),
    {
        let meta = identifier.to_meta_string();
        AuditIssue {
            kind: Kind::UndefinedIdentifierLiteral,
            subject: Subject::RustFile(file.path().clone()),
            message: concat3("identifier literal ", meta.as_str(), " is not defined in the canonical document"),
        }
    }

    /// A literal in a Rust file is not a Fluent identifier.
    pub fn malformed_identifier_literal(file: &RustFile, error: &str) -> (res: AuditIssue)
        ensures
            res@ == (IssueModel {
                kind: Kind::MalformedIdentifierLiteral,
                subject: SubjectModel::RustFile(file@),
                message: "malformed identifier literal: "@ + error@,
            }),
    {
        AuditIssue {
            kind: Kind::MalformedIdentifierLiteral,
            subject: Subject::RustFile(file.path().clone()),
            message: concat2("malformed identifier literal: ", error),
        }
    }

    /// A copy of this issue.
    pub fn copy(&self) -> (res: AuditIssue)
        ensures
            res@ == self@,
    {
        AuditIssue { kind: self.kind, subject: self.subject.copy(), message: self.message.clone() }
    }

    /// The locale this issue is about, if any.
    pub fn locale(&self) -> (res: Option<Locale>)
        ensures
            match res {
                Some(l) => issue_locale(self@) == Some(l@),
                None => issue_locale(self@) is None,
            },
    {
        match &self.subject {
            Subject::FluentFile(path) => match Locale::try_from_path(path.as_str()) {
                Ok(l) => Some(l),
                Err(_) => None,
            },
            Subject::RustFile(_) => None,
            Subject::Locale(l) => Some(l.copy()),
            Subject::Entry(l, _) => Some(l.copy()),
            Subject::LanguageRoot(_) => None,
        }
    }

    /// The message for people to read.
    pub fn message(&self) -> (res: &String)
        ensures
            res@ == self@.message,
    {
        &self.message
    }

    /// What the issue is about.
    pub fn subject(&self) -> (res: &Subject)
        ensures
            res@ == self@.subject,
    {
        &self.subject
    }

    /// The kind of the issue.
    pub fn kind(&self) -> (res: &Kind)
        ensures
            *res == self@.kind,
    {
        &self.kind
    }

    /// The text of the issue: its message.
    pub fn to_text(&self) -> (res: String)
        ensures
            res@ == self@.message,
    {
        self.message.clone()
    }
}

} // verus!
