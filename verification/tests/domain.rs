use lingora::config::{ConfigInclusionStyle, CoreArgs, DioxusI18nSettings, EngineSettings, LingoraToml};
use lingora::document::{FluentFile, RustFile};
use lingora::engine::{collate_files, collate_fluent_files, collate_rust_files};
use lingora::error::LingoraError;
use lingora::identifier::{Path, PathSegment, QualifiedIdentifier};
use lingora::issue::{AuditIssue, Kind, Subject};
use lingora::integrity::{pb2id, validated_locale, Identifier, Status, Validated, Warning, WithLocale};
use lingora::locale::{LanguageRoot, Locale};
use lingora::paths::invalid_filename_as_string;

fn locale(text: &str) -> Locale {
    Locale::from_str(text).ok().expect("valid locale")
}

#[test]
fn is_created_from_valid_str() {
    let l = locale("en-GB");
    assert_eq!(l.language(), "en");
    assert_eq!(l.script(), None);
    assert_eq!(l.region().map(|r| r.as_str()), Some("GB"));
    assert_eq!(l.to_text(), "en-GB");
}

#[test]
fn is_not_created_from_invalid_str() {
    let error = Locale::from_str("this-is-not-valid").err().expect("error");
    assert!(matches!(error, LingoraError::InvalidLocale(_)));
}

#[test]
fn default_locale_is_system_locale() {
    let text = sys_locale::get_locale().unwrap_or("en".into());
    let expected = Locale::from_str(&text).ok().unwrap_or_else(Locale::english);
    assert_eq!(Locale::system_default(), expected);
}

#[test]
fn locale_text_and_root_of_scripted_locale() {
    let l = locale("sr-Cyrl-RS");
    assert_eq!(l.to_text(), "sr-Cyrl-RS");
    assert_eq!(l.language_root().to_text(), "sr-Cyrl");
    assert_eq!(locale("en-AU").language_root(), LanguageRoot::ImplicitScript("en".to_string()));
}

#[test]
fn locale_order_is_by_subtags() {
    assert!(locale("en-AU").compare(&locale("en-GB")) < 0);
    assert!(locale("fr-FR").compare(&locale("en-GB")) > 0);
    assert_eq!(locale("it-IT").compare(&locale("it-IT")), 0);
}

#[test]
fn locale_from_path_prefers_stem_then_folder() {
    assert_eq!(Locale::try_from_path("i18n/en/en-GB.ftl").ok(), Some(locale("en-GB")));
    assert_eq!(Locale::try_from_path("i18n/en-AU/module.ftl").ok(), Some(locale("en-AU")));
    let error = Locale::try_from_path("i18n/modules/module.ftl").err().expect("no locale");
    assert_eq!(error.to_message(), "invalid locale: No valid locale found in path: i18n/modules/module.ftl");
}

#[test]
fn is_fluent_file_if_locale_stem_and_ftl() {
    let file = FluentFile::try_from_path("/tmp/x/en-GB.ftl", true).ok().expect("valid file");
    assert_eq!(file.locale(), &locale("en-GB"));
}

#[test]
fn is_fluent_file_if_locale_path_and_ftl() {
    let file = FluentFile::try_from_path("/tmp/x/en-AU/module.ftl", true).ok().expect("valid file");
    assert_eq!(file.locale(), &locale("en-AU"));
}

#[test]
fn is_not_fluent_file_if_not_ftl() {
    let error = FluentFile::try_from_path("/tmp/x/en-US.txt", true).err().expect("error");
    assert!(matches!(error, LingoraError::InvalidFluentPath(_)));
}

#[test]
fn is_not_fluent_file_if_missing() {
    let error = FluentFile::try_from_path("/tmp/x/en-US.ftl", false).err().expect("error");
    assert!(matches!(error, LingoraError::InvalidFluentPath(p) if p == "/tmp/x/en-US.ftl"));
}

#[test]
fn rust_files_need_rs_extension() {
    assert!(RustFile::try_from_path("src/main.rs", true).is_ok());
    let error = RustFile::try_from_path("src/main.ftl", true).err().expect("error");
    assert!(matches!(error, LingoraError::InvalidRustPath(_)));
}

#[test]
fn fluent_files_will_be_collated_from_provided_paths() {
    let candidates = vec![
        ("./tests/data/i18n".to_string(), false),
        ("./tests/data/i18n/en".to_string(), false),
        ("./tests/data/i18n/en/en-GB.ftl".to_string(), true),
        ("./tests/data/i18n/en/en-AU.ftl".to_string(), true),
        ("./tests/data/i18n/en/notes.txt".to_string(), true),
        ("./tests/data/i18n/fr/fr-FR.ftl".to_string(), true),
        ("./tests/data/i18n/it/it-IT.ftl".to_string(), true),
        ("./tests/data/i18n/sr-Cyrl/sr-Cyrl-RS.ftl".to_string(), true),
        ("./tests/data/i18n/sr-Cyrl/sr-Cyrl-BA.ftl".to_string(), true),
    ];
    let files = collate_fluent_files(&candidates).ok().expect("files");
    let expected = [
        "./tests/data/i18n/en/en-GB.ftl",
        "./tests/data/i18n/en/en-AU.ftl",
        "./tests/data/i18n/fr/fr-FR.ftl",
        "./tests/data/i18n/it/it-IT.ftl",
        "./tests/data/i18n/sr-Cyrl/sr-Cyrl-RS.ftl",
        "./tests/data/i18n/sr-Cyrl/sr-Cyrl-BA.ftl",
    ];
    assert_eq!(files.len(), expected.len());
    for (f, e) in files.iter().zip(expected) {
        assert_eq!(f.path(), e);
    }
}

#[test]
fn collate_keeps_only_files_with_the_extension() {
    let candidates = vec![
        ("src".to_string(), false),
        ("src/lib.rs".to_string(), true),
        ("src/a.ftl".to_string(), true),
        ("src/dir.rs".to_string(), false),
    ];
    assert_eq!(collate_files(&candidates, "rs"), vec!["src/lib.rs".to_string()]);
    let rust = collate_rust_files(&candidates).ok().expect("rust files");
    assert_eq!(rust.len(), 1);
    let bad = vec![("i18n/misc/notes.ftl".to_string(), true)];
    let error = collate_fluent_files(&bad).err().expect("no locale");
    assert!(matches!(error, LingoraError::InvalidLocale(_)));
}

#[test]
fn issue_messages() {
    let l = locale("it-IT");
    let id = QualifiedIdentifier::from_str("message1.attr").ok().expect("identifier");
    assert_eq!(AuditIssue::missing_translation(&l, &id).message(), "missing translation 'message1 / .attr'");
    assert_eq!(AuditIssue::redundant_translation(&l, &id).message(), "redundant translation 'message1 / .attr'");
    assert_eq!(AuditIssue::signature_mismatch(&l, &id).message(), "signature mismatch 'message1 / .attr'");
    assert_eq!(AuditIssue::invalid_reference(&l, &id).message(), "invalid reference 'message1 / .attr'");
    assert_eq!(AuditIssue::duplicate_identifier(&l, &id).message(), "multiple definitions for 'message1 / .attr'");
    assert_eq!(AuditIssue::missing_base_translation(&l).message(), "no files found for required locale it-IT");
    let root = l.language_root();
    let issue = AuditIssue::undefined_base_locale(&root, &vec![locale("it-IT"), locale("it-CH")]);
    assert_eq!(issue.message(), "missing base locale/s for 'it-IT, it-CH'");
    assert_eq!(issue.kind(), &Kind::UndefinedBase);
    assert_eq!(issue.locale(), None);
    let entry = AuditIssue::missing_translation(&l, &id);
    assert_eq!(entry.subject().to_text(), "it-IT :: message1 / .attr");
    assert_eq!(entry.locale(), Some(l.clone()));
    let rust = RustFile::try_from_path("src/main.rs", true).ok().expect("rust file");
    assert_eq!(
        AuditIssue::undefined_identifier_literal(&rust, &id).message(),
        "identifier literal message1 / .attr is not defined in the canonical document"
    );
    assert_eq!(AuditIssue::malformed_identifier_literal(&rust, "bad").message(), "malformed identifier literal: bad");
    assert_eq!(AuditIssue::parse_rust_file_error(&rust, "oops").subject(), &Subject::RustFile("src/main.rs".to_string()));
}

#[test]
fn identifier_literals() {
    let id = QualifiedIdentifier::from_str("-brand.title").ok().expect("identifier");
    assert_eq!(
        id,
        QualifiedIdentifier(Path(vec![PathSegment::Term("-brand".to_string()), PathSegment::Attribute(".title".to_string())]))
    );
    assert_eq!(id.to_meta_string(), "-brand / .title");
    let error = QualifiedIdentifier::from_str("not an identifier").err().expect("malformed");
    assert!(matches!(error, LingoraError::MalformedIdentifierLiteral(s) if s == "not an identifier"));
}

#[test]
fn normalized_identifiers_do_not_tell_default_variants() {
    let id = QualifiedIdentifier(Path(vec![PathSegment::Message("m".to_string()), PathSegment::DefaultVariant("[one]".to_string())]));
    let normalized = id.normalized();
    assert_eq!(
        normalized,
        QualifiedIdentifier(Path(vec![PathSegment::Message("m".to_string()), PathSegment::Variant("[one]".to_string())]))
    );
    assert_eq!(normalized.normalized(), normalized);
    assert_eq!(id.to_normalized_string(), "m / [one]");
}

fn settings(sources: &[&str], canonical: &str, primaries: &[&str], rust: &[&str], style: ConfigInclusionStyle) -> LingoraToml {
    LingoraToml {
        lingora: EngineSettings {
            fluent_sources: sources.iter().map(|s| s.to_string()).collect(),
            canonical: locale(canonical),
            primaries: primaries.iter().map(|p| locale(p)).collect(),
        },
        dioxus_i18n: DioxusI18nSettings {
            rust_sources: rust.iter().map(|s| s.to_string()).collect(),
            config_inclusion: style,
        },
    }
}

#[test]
fn will_default_when_no_file_provided() {
    let toml = LingoraToml::default();
    assert_eq!(toml.lingora.fluent_sources, ["./i18n"]);
    assert_eq!(toml.lingora.canonical, Locale::system_default());
    assert!(toml.lingora.primaries.is_empty());
    assert_eq!(toml.dioxus_i18n.rust_sources, ["./src"]);
    assert_eq!(toml.dioxus_i18n.config_inclusion, ConfigInclusionStyle::Auto);
}

#[test]
fn will_load_from_args_config() {
    let toml = settings(&["./args/i18n"], "de-DE", &["en-AU"], &["./args/src"], ConfigInclusionStyle::IncludeStr);
    let args = CoreArgs {
        config: Some("./tests/data/toml/Lingora_args.toml".to_string()),
        fluent_sources: vec![],
        canonical: None,
        primaries: vec![],
        rust_sources: vec![],
        config_inclusion: None,
    };
    let toml = toml.with_args(&args);
    assert_eq!(toml.lingora.fluent_sources, ["./args/i18n"]);
    assert_eq!(toml.lingora.canonical, locale("de-DE"));
    assert_eq!(toml.lingora.primaries, [locale("en-AU")]);
    assert_eq!(toml.dioxus_i18n.rust_sources, ["./args/src"]);
    assert_eq!(toml.dioxus_i18n.config_inclusion, ConfigInclusionStyle::IncludeStr);
}

#[test]
fn will_load_from_args_overridden() {
    let toml = settings(&["./args/i18n"], "de-DE", &["en-AU"], &["./args/src"], ConfigInclusionStyle::IncludeStr);
    let args = CoreArgs {
        config: Some("./tests/data/toml/Lingora_args.toml".to_string()),
        fluent_sources: vec!["./also/i18n".to_string(), "./also/branding".to_string()],
        canonical: Some(locale("ja-JP")),
        primaries: vec![locale("sk-SK"), locale("sr-Cryl-RS"), locale("bn-IN")],
        rust_sources: vec!["./also/src".to_string()],
        config_inclusion: Some(ConfigInclusionStyle::PathBuf),
    };
    let toml = toml.with_args(&args);
    assert_eq!(toml.lingora.fluent_sources, ["./args/i18n", "./also/i18n", "./also/branding"]);
    assert_eq!(toml.lingora.canonical, locale("ja-JP"));
    assert_eq!(
        toml.lingora.primaries,
        [locale("en-AU"), locale("sk-SK"), locale("sr-Cryl-RS"), locale("bn-IN")]
    );
    assert_eq!(toml.dioxus_i18n.rust_sources, ["./args/src", "./also/src"]);
    assert_eq!(toml.dioxus_i18n.config_inclusion, ConfigInclusionStyle::PathBuf);
}

#[test]
fn identifier_paths_and_stems() {
    let id = Identifier::new(&["message", ".placeholder"], "$name");
    assert_eq!(id.path(), "message / .placeholder / $name");
    assert_eq!(id.stem(), "$name");
    assert_eq!(Identifier::new(&[], "message").path(), "message");
}

#[test]
fn statuses_and_warnings() {
    assert_eq!(Status::Okay.css_class(), "ok");
    assert_eq!(Status::Warning.css_class(), "warning");
    assert_eq!(Status::Error.css_class(), "error");
    let missing = Warning::MissingTranslation("hello".to_string());
    assert_eq!(missing.category_str(), "Missing translation");
    assert_eq!(missing.value_str(), "hello");
    assert!(missing.is_error());
    assert!(!missing.is_warning());
    let superfluous = Warning::SuperfluousTranslation("extra".to_string());
    assert!(!superfluous.is_error());
    assert!(superfluous.is_warning());
    assert_eq!(superfluous.to_text(), "Superfluous translation: extra");
    assert_eq!(WithLocale::default().to_text(), "auto");
    assert_eq!(WithLocale::PathBuf.to_text(), "pathbuf");
}

#[test]
fn locales_of_paths() {
    assert_eq!(pb2id("i18n/en/en-GB.ftl").map(|id| (id.text, id.language)), Some(("en-GB".to_string(), "en".to_string())));
    assert!(pb2id("i18n/en/x.ftl").is_none());
    assert_eq!(validated_locale("i18n/it/it-IT.ftl"), Validated::Valid("it-IT".to_string()));
    assert_eq!(validated_locale("i18n/it/x.ftl"), Validated::Invalid("x.ftl".to_string()));
    assert_eq!(invalid_filename_as_string("i18n/it/notes.ftl"), "notes.ftl");
    assert_eq!(invalid_filename_as_string("/"), "/");
}

#[test]
fn valid_values_sort_before_invalid_ones() {
    let valid = Validated::Valid("en".to_string());
    let other = Validated::Valid("it".to_string());
    let invalid = Validated::Invalid("≪Unknown≫".to_string());
    assert_eq!(valid.compare(&other), -1);
    assert_eq!(other.compare(&valid), 1);
    assert_eq!(valid.compare(&invalid), -1);
    assert_eq!(invalid.compare(&valid), 1);
    assert_eq!(invalid.compare(&invalid), 0);
    assert_eq!(invalid.to_text(), "≪Unknown≫");
    assert_eq!(valid.to_text(), "en");
}

#[test]
fn system_locale_text_becomes_a_locale_or_english() {
    assert_eq!(Locale::locale_or_english(Some("it-IT".to_string())).to_text(), "it-IT");
    assert_eq!(Locale::locale_or_english(Some("not a locale!".to_string())).to_text(), "en");
    assert_eq!(Locale::locale_or_english(None).to_text(), "en");
}

fn literal_segments(text: &str) -> Option<Vec<PathSegment>> {
    QualifiedIdentifier::from_str(text).ok().map(|id| id.0 .0)
}

#[test]
fn identifier_literals_follow_the_fluent_identifier_syntax() {
    assert_eq!(literal_segments("hello"), Some(vec![PathSegment::Message("hello".to_string())]));
    assert_eq!(literal_segments("user-name"), Some(vec![PathSegment::Message("user-name".to_string())]));
    assert_eq!(literal_segments("-brand"), Some(vec![PathSegment::Term("-brand".to_string())]));
    assert_eq!(
        literal_segments("greeting.title"),
        Some(vec![PathSegment::Message("greeting".to_string()), PathSegment::Attribute(".title".to_string())])
    );
    assert_eq!(
        literal_segments("-error.auth.invalid"),
        Some(vec![PathSegment::Term("-error.auth".to_string()), PathSegment::Attribute(".invalid".to_string())])
    );
    assert_eq!(literal_segments("_x"), Some(vec![PathSegment::Message("_x".to_string())]));
    assert_eq!(literal_segments("héllo"), Some(vec![PathSegment::Message("héllo".to_string())]));
    assert_eq!(literal_segments("-"), Some(vec![PathSegment::Message("-".to_string())]));
    assert_eq!(
        literal_segments("-a.b.c"),
        Some(vec![PathSegment::Term("-a.b".to_string()), PathSegment::Attribute(".c".to_string())])
    );
    for bad in ["1abc", "hello world", "", ".title", "a.", "a..b", "a.b.c", "-a..b"] {
        let error = QualifiedIdentifier::from_str(bad).err().expect("malformed");
        assert!(matches!(error, LingoraError::MalformedIdentifierLiteral(ref s) if s == bad));
    }
}

#[test]
fn loading_methods_are_read_from_their_names() {
    assert_eq!(WithLocale::from_text("includestr"), Some(WithLocale::IncludeStr));
    assert_eq!(WithLocale::from_text("pathbuf"), Some(WithLocale::PathBuf));
    assert_eq!(WithLocale::from_text("auto"), Some(WithLocale::Auto));
    assert_eq!(WithLocale::from_text("Auto"), None);
}
