//! The identifiers, warnings and statuses of the single-reference analysis,
//! language identifiers of file names, and the output modes of the command
//! line.
use vstd::prelude::*;
use crate::paths::{file_stem_of, invalid_filename_as_string, invalid_filename_text, path_file_stem};
use crate::text::{join, views};

verus! {

/// An identifier in a Fluent file: the names of the identifiers enclosing
/// it, and its own name.
#[derive(Clone, Debug, PartialEq, Eq, PartialOrd, Ord, Hash)]
pub struct Identifier {
    context: Vec<String>,
    name: String,
}

/// An identifier, as views.
pub struct IdentifierModel {
    pub context: Seq<Seq<char>>,
    pub name: Seq<char>,
}

impl View for Identifier {
    type V = IdentifierModel;

    closed spec fn view(&self) -> IdentifierModel {
        IdentifierModel { context: views(self.context@), name: self.name@ }
    }
}

/// The views of a slice of texts.
pub open spec fn str_views(s: Seq<&str>) -> Seq<Seq<char>> {
    s.map_values(|t: &str| t@)
}

/// The text of an identifier: its context and name joined by `" / "`.
pub open spec fn identifier_path(i: IdentifierModel) -> Seq<char> {
    join(i.context.push(i.name), " / "@)
}

impl Identifier {
    /// The identifier `name` within the given enclosing identifiers.
    pub fn new(context: &[&str], name: &str) -> (res: Identifier)
        ensures
            res@ == (IdentifierModel { context: str_views(context@), name: name@ }),
    {
        let mut names: Vec<String> = Vec::new();
        let n = context.len();
        let mut i: usize = 0;
        while i < n
            invariant
                n == context@.len(),
                i <= n,
                names.len() == i,
                forall|j: int| 0 <= j < i ==> (#[trigger] names@[j])@ == context@[j]@,
            decreases n - i,
        {
            names.push(String::from_str(context[i]));
            i += 1;
        }
        assert(views(names@) =~= str_views(context@));
        Identifier { context: names, name: String::from_str(name) }
    }

    /// The identifier `name` within the enclosing identifiers `context`.
    pub fn from_parts(context: Vec<String>, name: String) -> (res: Identifier)
        ensures
            res@ == (IdentifierModel { context: views(context@), name: name@ }),
    {
        Identifier { context, name }
    }

    /// A copy of this identifier.
    pub fn copy(&self) -> (res: Identifier)
        ensures
            res@ == self@,
    {
        Identifier { context: crate::config::copy_strings(&self.context), name: self.name.clone() }
    }

    /// Whether two identifiers have the same context and name.
    pub fn same_as(&self, other: &Identifier) -> (res: bool)
        ensures
            res == (self@ == other@),
    {
        if !self.name.eq(&other.name) || self.context.len() != other.context.len() {
            assert(self@.context.len() != other@.context.len() || self@.name != other@.name);
            return false;
        }
        let n = self.context.len();
        let mut i: usize = 0;
        while i < n
            invariant
                n == self.context.len(),
                n == other.context.len(),
                i <= n,
                forall|j: int| 0 <= j < i ==> self@.context[j] == other@.context[j],
            decreases n - i,
        {
            if !self.context[i].eq(&other.context[i]) {
                assert(self@.context[i as int] != other@.context[i as int]);
                return false;
            }
            i += 1;
        }
        assert(self@.context =~= other@.context);
        true
    }

    /// The full text of the identifier, e.g. `message / .attribute`.
    pub fn path(&self) -> (res: String)
        ensures
            res@ == identifier_path(self@),
    {
        let mut parts = crate::config::copy_strings(&self.context);
        let ghost before = views(parts@);
        parts.push(self.name.clone());
        assert(views(parts@) =~= before.push(self@.name));
        crate::text::join_strings(&parts, " / ")
    }

    /// The identifier's own name.
    pub fn stem(&self) -> (res: String)
        ensures
            res@ == self@.name,
    {
        self.name.clone()
    }

    /// The text shown for the identifier: its own name.
    pub fn to_text(&self) -> (res: String)
        ensures
            res@ == self@.name,
    {
        self.stem()
    }
}

/// The overall status of a checked file.
#[derive(Clone, Copy, Debug, PartialEq, Eq, Structural)]
pub enum Status {
    Okay,
    Warning,
    Error,
}

impl Status {
    /// The CSS class used to show the status.
    pub fn css_class(&self) -> (res: &'static str)
        ensures
            res@ == match *self {
                Status::Okay => "ok"@,
                Status::Warning => "warning"@,
                Status::Error => "error"@,
            },
    {
        match self {
            Status::Okay => "ok",
            Status::Warning => "warning",
            Status::Error => "error",
        }
    }
}

/// A problem found when checking a file against the reference.
#[derive(Clone, Debug, PartialEq, Eq, PartialOrd, Ord, Hash)]
pub enum Warning {
    IdentifierConflict(String),
    MessageTermConflict(String),
    InvalidMessageReference(String),
    InvalidTermReference(String),
    MissingTranslation(String),
    SuperfluousTranslation(String),
}

/// A warning, as views.
pub enum WarningModel {
    IdentifierConflict(Seq<char>),
    MessageTermConflict(Seq<char>),
    InvalidMessageReference(Seq<char>),
    InvalidTermReference(Seq<char>),
    MissingTranslation(Seq<char>),
    SuperfluousTranslation(Seq<char>),
}

impl View for Warning {
    type V = WarningModel;

    open spec fn view(&self) -> WarningModel {
        match self {
            Warning::IdentifierConflict(s) => WarningModel::IdentifierConflict(s@),
            Warning::MessageTermConflict(s) => WarningModel::MessageTermConflict(s@),
            Warning::InvalidMessageReference(s) => WarningModel::InvalidMessageReference(s@),
            Warning::InvalidTermReference(s) => WarningModel::InvalidTermReference(s@),
            Warning::MissingTranslation(s) => WarningModel::MissingTranslation(s@),
            Warning::SuperfluousTranslation(s) => WarningModel::SuperfluousTranslation(s@),
        }
    }
}

/// The category of a warning, for people to read.
pub open spec fn category_text(w: WarningModel) -> Seq<char> {
    match w {
        WarningModel::IdentifierConflict(_) => "Identifier conflict"@,
        WarningModel::MessageTermConflict(_) => "Message / term conflict"@,
        WarningModel::InvalidMessageReference(_) => "Invalid message reference"@,
        WarningModel::InvalidTermReference(_) => "Invalid term reference"@,
        WarningModel::MissingTranslation(_) => "Missing translation"@,
        WarningModel::SuperfluousTranslation(_) => "Superfluous translation"@,
    }
}

/// The value a warning is about.
pub open spec fn value_text(w: WarningModel) -> Seq<char> {
    match w {
        WarningModel::IdentifierConflict(s) => s,
        WarningModel::MessageTermConflict(s) => s,
        WarningModel::InvalidMessageReference(s) => s,
        WarningModel::InvalidTermReference(s) => s,
        WarningModel::MissingTranslation(s) => s,
        WarningModel::SuperfluousTranslation(s) => s,
    }
}

/// Every warning is an error but a superfluous translation.
pub open spec fn warning_is_error(w: WarningModel) -> bool {
    !(w is SuperfluousTranslation)
}

impl Warning {
    /// The category of the warning.
    pub fn category_str(&self) -> (res: &str)
        ensures
            res@ == category_text(self@),
    {
        match self {
            Warning::IdentifierConflict(_) => "Identifier conflict",
            Warning::MessageTermConflict(_) => "Message / term conflict",
            Warning::InvalidMessageReference(_) => "Invalid message reference",
            Warning::InvalidTermReference(_) => "Invalid term reference",
            Warning::MissingTranslation(_) => "Missing translation",
            Warning::SuperfluousTranslation(_) => "Superfluous translation",
        }
    }

    /// The value the warning is about.
    pub fn value_str(&self) -> (res: &str)
        ensures
            res@ == value_text(self@),
    {
        match self {
            Warning::IdentifierConflict(s) => s.as_str(),
            Warning::MessageTermConflict(s) => s.as_str(),
            Warning::InvalidMessageReference(s) => s.as_str(),
            Warning::InvalidTermReference(s) => s.as_str(),
            Warning::MissingTranslation(s) => s.as_str(),
            Warning::SuperfluousTranslation(s) => s.as_str(),
        }
    }

    /// Whether the warning is an error.
    pub fn is_error(&self) -> (res: bool)
        ensures
            res == warning_is_error(self@),
    {
        match self {
            Warning::SuperfluousTranslation(_) => false,
            _ => true,
        }
    }

    /// Whether the warning is only a warning: exactly when it is not an
    /// error.
    pub fn is_warning(&self) -> (res: bool)
        ensures
            res == !warning_is_error(self@),
            res == !self.is_error_spec(),
    {
        !self.is_error()
    }

    /// Whether the warning is an error.
    pub open spec fn is_error_spec(&self) -> bool {
        warning_is_error(self@)
    }

    /// The text of the warning: `{category}: {value}`.
    pub fn to_text(&self) -> (res: String)
        ensures
            res@ == category_text(self@) + ": "@ + value_text(self@),
    {
        crate::text::concat3(self.category_str(), ": ", self.value_str())
    }
}

/// Which `with_locale` method generated `dioxus_i18n` configuration code
/// uses.
#[derive(Clone, Copy, Debug, PartialEq, Eq, Structural)]
pub enum WithLocale {
    IncludeStr,
    PathBuf,
    Auto,
}

impl WithLocale {
    /// The method a settings text names: `includestr`, `pathbuf` or `auto`;
    /// `None` for any other text.
    pub fn from_text(text: &str) -> (res: Option<WithLocale>)
        ensures
            res == (if text@ == "includestr"@ {
                Some(WithLocale::IncludeStr)
            } else if text@ == "pathbuf"@ {
                Some(WithLocale::PathBuf)
            } else if text@ == "auto"@ {
                Some(WithLocale::Auto)
            } else {
                None
            }),
    {
        let inline = "includestr";
        let path = "pathbuf";
        let auto = "auto";
        if crate::text::same_text(&String::from_str(text), &String::from_str(inline)) {
            Some(WithLocale::IncludeStr)
        } else if crate::text::same_text(&String::from_str(text), &String::from_str(path)) {
            Some(WithLocale::PathBuf)
        } else if crate::text::same_text(&String::from_str(text), &String::from_str(auto)) {
            Some(WithLocale::Auto)
        } else {
            None
        }
    }

    /// The name of the method, as written in settings.
    pub fn to_text(&self) -> (res: &'static str)
        ensures
            res@ == match *self {
                WithLocale::IncludeStr => "includestr"@,
                WithLocale::PathBuf => "pathbuf"@,
                WithLocale::Auto => "auto"@,
            },
    {
        match self {
            WithLocale::IncludeStr => "includestr",
            WithLocale::PathBuf => "pathbuf",
            WithLocale::Auto => "auto",
        }
    }
}

impl Default for WithLocale {
    fn default() -> (res: WithLocale)
        ensures
            res == WithLocale::Auto,
    {
        WithLocale::Auto
    }
}

/// How much the command line reports.
#[derive(Clone, Copy, Debug, PartialEq, Eq, Structural)]
pub enum OutputMode {
    /// Only the exit status tells whether issues were found.
    Silent,
    /// The audit report is written to standard output.
    Standard,
}

/// What `unic_langid::LanguageIdentifier::from_str` makes of a text: the
/// text of the identifier it parses and the text of its language subtag,
/// or nothing when it rejects the text.
pub uninterp spec fn unic_language_identifier(text: Seq<char>) -> Option<(Seq<char>, Seq<char>)>;

/// A language identifier, by its text and the text of its language subtag.
#[derive(Clone, Debug, PartialEq, Eq, Hash)]
pub struct LanguageId {
    pub text: String,
    pub language: String,
}

/// The view of an optional language identifier.
pub open spec fn language_id_view(o: Option<LanguageId>) -> Option<(Seq<char>, Seq<char>)> {
    match o {
        Some(id) => Some((id.text@, id.language@)),
        None => None,
    }
}

/// Parses `text` with `unic_langid::LanguageIdentifier::from_str` and hands
/// back the `Display` texts of the identifier and of its language. The
/// contract names the outcome `unic_language_identifier(text)`.
#[verifier::external_body]
fn parse_unic_language_identifier(text: &str) -> (res: Option<LanguageId>)
    ensures
        language_id_view(res) == unic_language_identifier(text@),
{
    text.parse::<unic_langid::LanguageIdentifier>().ok().map(|id| LanguageId {
        text: id.to_string(),
        language: id.language.to_string(),
    })
}

/// The file stem of a path, or the empty text when it has none.
pub open spec fn stem_or_empty(path: Seq<char>) -> Seq<char> {
    match file_stem_of(path) {
        Some(s) => s,
        None => Seq::empty(),
    }
}

/// The language identifier a path's file stem names.
pub fn pb2id(path: &str) -> (res: Option<LanguageId>)
    ensures
        language_id_view(res) == unic_language_identifier(stem_or_empty(path@)),
{
    let stem = match path_file_stem(path) {
        Some(s) => s,
        None => String::new(),
    };
    parse_unic_language_identifier(stem.as_str())
}

/// A value that passed validation, or the text of what failed it.
#[derive(Clone, Debug, PartialEq, Eq, Hash)]
pub enum Validated<T> {
    Valid(T),
    Invalid(String),
}

/// Validated text, as views.
pub enum ValidatedModel {
    Valid(Seq<char>),
    Invalid(Seq<char>),
}

/// The locale a path names, as validated text: the text of the language
/// identifier of its file stem, or else its file name.
pub open spec fn validated_locale_of(path: Seq<char>) -> ValidatedModel {
    match unic_language_identifier(stem_or_empty(path)) {
        Some(id) => ValidatedModel::Valid(id.0),
        None => ValidatedModel::Invalid(invalid_filename_text(path)),
    }
}

/// The view of validated text.
pub open spec fn validated_view(v: Validated<String>) -> ValidatedModel {
    match v {
        Validated::Valid(s) => ValidatedModel::Valid(s@),
        Validated::Invalid(s) => ValidatedModel::Invalid(s@),
    }
}

/// The order of validated texts: valid ones first, each kind by its text.
pub open spec fn validated_order(a: ValidatedModel, b: ValidatedModel) -> int {
    match (a, b) {
        (ValidatedModel::Valid(x), ValidatedModel::Valid(y)) => crate::order::text_order(x, y),
        (ValidatedModel::Invalid(x), ValidatedModel::Invalid(y)) => crate::order::text_order(x, y),
        (ValidatedModel::Valid(_), ValidatedModel::Invalid(_)) => -1,
        (ValidatedModel::Invalid(_), ValidatedModel::Valid(_)) => 1,
    }
}

/// The text of a validated text: the value, or the text of what failed.
pub open spec fn validated_text(v: ValidatedModel) -> Seq<char> {
    match v {
        ValidatedModel::Valid(x) => x,
        ValidatedModel::Invalid(x) => x,
    }
}

impl Validated<String> {
    /// -1, 0 or 1 as this sorts before, with or after `other`: valid values
    /// first, each kind by its text.
    pub fn compare(&self, other: &Validated<String>) -> (res: i8)
        ensures
            res as int == validated_order(validated_view(*self), validated_view(*other)),
    {
        match (self, other) {
            (Validated::Valid(x), Validated::Valid(y)) => crate::order::compare_text(x.as_str(), y.as_str()),
            (Validated::Invalid(x), Validated::Invalid(y)) => crate::order::compare_text(x.as_str(), y.as_str()),
            (Validated::Valid(_), Validated::Invalid(_)) => -1,
            (Validated::Invalid(_), Validated::Valid(_)) => 1,
        }
    }

    /// The value, or the text of what failed.
    pub fn to_text(&self) -> (res: String)
        ensures
            res@ == validated_text(validated_view(*self)),
    {
        match self {
            Validated::Valid(x) => x.clone(),
            Validated::Invalid(x) => x.clone(),
        }
    }
}

/// The locale a path names: the text of the language identifier of its
/// file stem, or else, as invalid, its file name.
pub fn validated_locale(path: &str) -> (res: Validated<String>)
    ensures
        validated_view(res) == validated_locale_of(path@),
{
    match pb2id(path) {
        Some(id) => Validated::Valid(id.text),
        None => Validated::Invalid(invalid_filename_as_string(path)),
    }
}

} // verus!
