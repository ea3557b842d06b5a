//! The error type of the library.
use vstd::prelude::*;

verus! {

/// Errors raised while reading configuration, locating files or parsing
/// identifiers and locales.
///
/// Errors that come from the world outside the library (I/O, TOML, command
/// line) carry the text of the outside error.
pub enum LingoraError {
    /// An I/O error occurred while reading or writing files.
    Io(String),
    /// A `Lingora.toml` configuration could not be deserialized.
    TomlParse(String),
    /// A TOML table could not be serialized.
    TomlSerialize(String),
    /// The command-line arguments could not be parsed.
    Args(String),
    /// The Fluent parser rejected a `.ftl` text.
    Fluent(String),
    /// The provided locale string is not a valid BCP 47 language tag.
    InvalidLocale(String),
    /// A path given as a Fluent file is not an existing `.ftl` file.
    InvalidFluentPath(String),
    /// A path given as a Rust file is not an existing `.rs` file.
    InvalidRustPath(String),
    /// Several locales resolve to the same language root.
    AmbiguousLanguageRoots(String),
    /// No translation files were found for required locales.
    MissingTranslationFiles(String),
    /// None of the provided locales is a primary locale.
    MissingPrimaryLocales(String),
    /// A string literal does not have the shape of a Fluent identifier.
    MalformedIdentifierLiteral(String),
    /// No file named after the reference locale was found among the targets.
    CannotFindReferenceFile(String),
    /// Several files named after the reference locale were found among the targets.
    AmbiguousReferenceFiles(String),
}

/// Which error an error is, with the text it carries.
pub enum ErrorModel {
    Io(Seq<char>),
    TomlParse(Seq<char>),
    TomlSerialize(Seq<char>),
    Args(Seq<char>),
    Fluent(Seq<char>),
    InvalidLocale(Seq<char>),
    InvalidFluentPath(Seq<char>),
    InvalidRustPath(Seq<char>),
    AmbiguousLanguageRoots(Seq<char>),
    MissingTranslationFiles(Seq<char>),
    MissingPrimaryLocales(Seq<char>),
    MalformedIdentifierLiteral(Seq<char>),
    CannotFindReferenceFile(Seq<char>),
    AmbiguousReferenceFiles(Seq<char>),
}

impl View for LingoraError {
    type V = ErrorModel;

    open spec fn view(&self) -> ErrorModel {
        match self {
            LingoraError::Io(s) => ErrorModel::Io(s@),
            LingoraError::TomlParse(s) => ErrorModel::TomlParse(s@),
            LingoraError::TomlSerialize(s) => ErrorModel::TomlSerialize(s@),
            LingoraError::Args(s) => ErrorModel::Args(s@),
            LingoraError::Fluent(s) => ErrorModel::Fluent(s@),
            LingoraError::InvalidLocale(s) => ErrorModel::InvalidLocale(s@),
            LingoraError::InvalidFluentPath(s) => ErrorModel::InvalidFluentPath(s@),
            LingoraError::InvalidRustPath(s) => ErrorModel::InvalidRustPath(s@),
            LingoraError::AmbiguousLanguageRoots(s) => ErrorModel::AmbiguousLanguageRoots(s@),
            LingoraError::MissingTranslationFiles(s) => ErrorModel::MissingTranslationFiles(s@),
            LingoraError::MissingPrimaryLocales(s) => ErrorModel::MissingPrimaryLocales(s@),
            LingoraError::MalformedIdentifierLiteral(s) => ErrorModel::MalformedIdentifierLiteral(s@),
            LingoraError::CannotFindReferenceFile(s) => ErrorModel::CannotFindReferenceFile(s@),
            LingoraError::AmbiguousReferenceFiles(s) => ErrorModel::AmbiguousReferenceFiles(s@),
        }
    }
}

/// The text shown for an error.
pub open spec fn error_text(e: ErrorModel) -> Seq<char> {
    match e {
        ErrorModel::Io(s) => s,
        ErrorModel::TomlParse(s) => s,
        ErrorModel::TomlSerialize(s) => s,
        ErrorModel::Args(s) => s,
        ErrorModel::Fluent(s) => s,
        ErrorModel::InvalidLocale(s) => "invalid locale: "@ + s,
        ErrorModel::InvalidFluentPath(s) => "invalid fluent file path: "@ + s,
        ErrorModel::InvalidRustPath(s) => "invalid rust file path: "@ + s,
        ErrorModel::AmbiguousLanguageRoots(s) =>
            "multiple locales resolve to the same language root(s) making graceful fallback impossible for "@
                + s,
        ErrorModel::MissingTranslationFiles(s) => "no translation file(s) for required locales: "@ + s,
        ErrorModel::MissingPrimaryLocales(s) => "no primary locales found for provided locales: "@ + s,
        ErrorModel::MalformedIdentifierLiteral(s) => "malformed identifier literal "@ + s,
        ErrorModel::CannotFindReferenceFile(s) => "cannot find reference file: "@ + s,
        ErrorModel::AmbiguousReferenceFiles(s) => "ambiguous reference files:\n  "@ + s,
    }
}

impl LingoraError {
    /// The text shown for this error.
    pub fn to_message(&self) -> (res: String)
        ensures
            res@ == error_text(self@),
    {
        match self {
            LingoraError::Io(s) => s.clone(),
            LingoraError::TomlParse(s) => s.clone(),
            LingoraError::TomlSerialize(s) => s.clone(),
            LingoraError::Args(s) => s.clone(),
            LingoraError::Fluent(s) => s.clone(),
            LingoraError::InvalidLocale(s) => crate::text::concat2("invalid locale: ", s.as_str()),
            LingoraError::InvalidFluentPath(s) => crate::text::concat2(
                "invalid fluent file path: ",
                s.as_str(),
            ),
            LingoraError::InvalidRustPath(s) => crate::text::concat2(
                "invalid rust file path: ",
                s.as_str(),
            ),
            LingoraError::AmbiguousLanguageRoots(s) => crate::text::concat2(
                "multiple locales resolve to the same language root(s) making graceful fallback impossible for ",
                s.as_str(),
            ),
            LingoraError::MissingTranslationFiles(s) => crate::text::concat2(
                "no translation file(s) for required locales: ",
                s.as_str(),
            ),
            LingoraError::MissingPrimaryLocales(s) => crate::text::concat2(
                "no primary locales found for provided locales: ",
                s.as_str(),
            ),
            LingoraError::MalformedIdentifierLiteral(s) => crate::text::concat2(
                "malformed identifier literal ",
                s.as_str(),
            ),
            LingoraError::CannotFindReferenceFile(s) => crate::text::concat2(
                "cannot find reference file: ",
                s.as_str(),
            ),
            LingoraError::AmbiguousReferenceFiles(s) => crate::text::concat2(
                "ambiguous reference files:\n  ",
                s.as_str(),
            ),
        }
    }
}

} // verus!
