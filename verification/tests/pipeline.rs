use lingora::document::FluentFile;
use lingora::identifier::{Path, PathSegment, QualifiedIdentifier};
use lingora::issue::{AuditIssue, Kind, Subject};
use lingora::locale::{LanguageRoot, Locale};
use lingora::pipeline::{DocumentsClassified, Pipeline};

fn locale(text: &str) -> Locale {
    Locale::from_str(text).ok().expect("valid locale")
}

fn root(text: &str) -> LanguageRoot {
    LanguageRoot::from_str(text).ok().expect("valid root")
}

fn identifier(text: &str) -> QualifiedIdentifier {
    QualifiedIdentifier::from_str(text).ok().expect("valid identifier")
}

fn file(locale: &str) -> FluentFile {
    FluentFile::try_from_path(&format!("{locale}.ftl"), true).ok().expect("valid file")
}

fn files_and_contents(sources: &[(&str, &str)]) -> (Vec<FluentFile>, Vec<String>) {
    let files = sources.iter().map(|(l, _)| file(l)).collect::<Vec<_>>();
    let contents = sources.iter().map(|(_, c)| c.to_string()).collect::<Vec<_>>();
    (files, contents)
}

fn classified(sources: &[(&str, &str)], canonical: &str, primaries: &[&str]) -> Pipeline<DocumentsClassified> {
    let (files, contents) = files_and_contents(sources);
    let canonical = locale(canonical);
    let primaries = primaries.iter().map(|l| locale(l)).collect::<Vec<_>>();
    Pipeline::default()
        .parse_fluent_files(&files, &contents)
        .collect_documents_by_locale()
        .classify_documents(&canonical, &primaries)
}

fn assert_issue_has(issues: &[AuditIssue], kind: Kind, subject: Subject) {
    let found = issues.iter().any(|i| i.kind() == &kind && i.subject() == &subject);
    assert!(found, "expected issue kind {kind:?} subject {subject:?}, got: {issues:#?}");
}

#[test]
fn parse_errors() {
    let (files, contents) = files_and_contents(&[("en-GB", "\nkdahf(#Q)$)(\n"), ("en-AU", "\nmessage = Hello\n")]);
    let pipeline = Pipeline::default().parse_fluent_files(&files, &contents);
    assert_eq!(pipeline.issues().len(), 1);
    assert_issue_has(pipeline.issues(), Kind::ParseError, Subject::FluentFile(files[0].path().clone()));
}

#[test]
fn missing_bases() {
    let pipeline = classified(
        &[("en-GB", "\nmessage = Hello\n"), ("fr-FR", "\nmessage = Bonjour\n")],
        "en-GB",
        &["fr-FR", "de-DE"],
    );
    assert_eq!(pipeline.issues().len(), 1);
    assert_issue_has(pipeline.issues(), Kind::MissingBase, Subject::Locale(locale("de-DE")));
}

#[test]
fn undefined_bases() {
    let pipeline = classified(
        &[
            ("en-GB", "\nmessage = Hello\n"),
            ("fr-FR", "\nmessage = Bonjour\n"),
            ("de-DE", "\nmessage = Guten Tag\n"),
        ],
        "en-GB",
        &["fr-FR"],
    );
    assert_eq!(pipeline.issues().len(), 1);
    assert_issue_has(pipeline.issues(), Kind::UndefinedBase, Subject::LanguageRoot(root("de-DE")));
}

#[test]
fn duplicate_identifiers() {
    let pipeline = classified(
        &[("en-GB", "\nmessage = Hello\nmessage = Hello again\n-term   = World\n-term   = World again\n")],
        "en-GB",
        &[],
    )
    .audit();
    assert_eq!(pipeline.issues().len(), 2);
    for i in ["message", "-term"] {
        assert_issue_has(pipeline.issues(), Kind::DuplicateIdentifier, Subject::Entry(locale("en-GB"), identifier(i)));
    }
}

#[test]
fn invalid_references() {
    let content = r#"
message1 = Hello
    .attr1 = Attribute 1
message1ref = { message1 }
attr11ref = { message1.attr1 }
attr12ref = { message1.attr2 }
message2ref = { message2 }
attr2ref = { message2.attr1 }
-term1 = World
    .attr1 = Attribute 1
-term1ref = { -term1 }
termattr11ref = { -term1.attr1 }
termattr12ref = { -term1.attr2 }
-term2ref = { -term2 }
termattr1ref = { -term2.attr1 }
"#;
    let pipeline = classified(&[("en-GB", content)], "en-GB", &[]).audit();
    assert_eq!(pipeline.issues().len(), 8);
    for i in ["message1.attr2", "message2", "message2.attr1", "-term1.attr2", "-term2", "-term2.attr1"] {
        assert_issue_has(pipeline.issues(), Kind::InvalidReference, Subject::Entry(locale("en-GB"), identifier(i)));
    }
}

#[test]
fn duplicate_variants() {
    let content = r#"
message =
    { $colour ->
        [red]    Red
        [green]  Green
        [red]    Red2
        *[other] Other
    }
message2 =
    { $colour ->
        [red]    Red
        [green]  Green
        [other]  Other
        *[other] Other
    }
"#;
    let pipeline = classified(&[("en-GB", content)], "en-GB", &[]).audit();
    assert_eq!(pipeline.issues().len(), 2);
    let variant = |message: &str, key: &str| {
        QualifiedIdentifier(Path(vec![PathSegment::Message(message.to_string()), PathSegment::Variant(key.to_string())]))
    };
    assert_issue_has(pipeline.issues(), Kind::DuplicateIdentifier, Subject::Entry(locale("en-GB"), variant("message", "[red]")));
    assert_issue_has(pipeline.issues(), Kind::DuplicateIdentifier, Subject::Entry(locale("en-GB"), variant("message2", "[other]")));
}

#[test]
fn canonical_to_primary_missing_translations() {
    let canonical = r#"
message1 = G'day en 1
message2 = G'day en 2
message3 =
    .hello = G'day en 3
    .world = World 3
message4 =
    .hello = G'day en 4
    .world = World 4
-term1 = G'day en 1
-term2 = G'day en 2
"#;
    let primary = r#"
message1 = Buongiorno it 1
message3 =
    .hello = Buongiorno it 3
    .world = Mondo 3
message4 =
    .hello = Buongiorno it 4
-term1 = Buongiorno it 1
"#;
    let pipeline = classified(&[("en-AU", canonical), ("it-IT", primary)], "en-AU", &["it-IT"]).audit();
    assert_eq!(pipeline.issues().len(), 3);
    for i in ["message2", "-term2"] {
        assert_issue_has(pipeline.issues(), Kind::MissingTranslation, Subject::Entry(locale("it-IT"), identifier(i)));
    }
}

const EMAILS_THREE_WAY: &str = r#"
emails1 =
    { $unreadEmails ->
        [one] You have one unread email.
        [two] You have two unread emails.
        *[other] You have { $unreadEmails } unread emails.
    }
emails2 =
    { $unreadEmails ->
        [one] You have one unread email.
        [two] You have two unread emails.
        *[other] You have { $unreadEmails } unread emails.
    }
"#;

#[test]
fn canonical_to_primary_signature_mismatch() {
    let primary = r#"
emails1 =
    { $unreadEmails ->
        [one] Hai un'email non letta.
        *[other] Hai { $unreadEmails } email non lette.
    }
emails2 =
    { $unreadEmails ->
        [one] Hai un'email non letta.
        [two] Hai due email non lette.
        *[other] Hai { $unreadEmails } email non lette.
    }
"#;
    let pipeline = classified(&[("en-AU", EMAILS_THREE_WAY), ("it-IT", primary)], "en-AU", &["it-IT"]).audit();
    assert_eq!(pipeline.issues().len(), 1);
    assert_issue_has(pipeline.issues(), Kind::SignatureMismatch, Subject::Entry(locale("it-IT"), identifier("emails1")));
}

#[test]
fn canonical_to_primary_redundant_translations() {
    let canonical = "\nmessage1 = G'day en 1\n-term1   = G'day en 1\n";
    let primary = r#"
message1 = Buongiorno it 1
    .world = Mondo 1
message2 = Buongiorno it 2
-term1 = Buongiorno it 1
-term2 = Buongiorno it 2
"#;
    let pipeline = classified(&[("en-AU", canonical), ("it-IT", primary)], "en-AU", &["it-IT"]).audit();
    assert_eq!(pipeline.issues().len(), 3);
    for i in ["message2", "-term2"] {
        assert_issue_has(pipeline.issues(), Kind::RedundantTranslation, Subject::Entry(locale("it-IT"), identifier(i)));
    }
}

#[test]
fn base_to_variant_missing_translations_is_valid() {
    let pipeline = classified(
        &[("en-GB", "\nmessage1 = Hello\nmessage2 = Hello again\n"), ("en-AU", "\nmessage1 = G'day\n")],
        "en-GB",
        &[],
    )
    .audit();
    assert_eq!(pipeline.issues().len(), 0);
}

#[test]
fn base_to_variant_signature_mismatch_issues() {
    let variant = r#"
emails1 =
    { $unreadEmails ->
        [one] You have one unread email.
        *[other] You have { $unreadEmails } unread emails.
    }
emails2 =
    { $unreadEmails ->
        [one] You have one unread email.
        [two] You have two unread emails.
        *[other] You have { $unreadEmails } unread emails.
    }
"#;
    let pipeline = classified(&[("en-GB", EMAILS_THREE_WAY), ("en-AU", variant)], "en-GB", &[]).audit();
    assert_eq!(pipeline.issues().len(), 1);
    assert_issue_has(pipeline.issues(), Kind::SignatureMismatch, Subject::Entry(locale("en-AU"), identifier("emails1")));
}

#[test]
fn base_to_variant_redundant_translation_issues() {
    let canonical = "\nmessage1 = G'day en 1\n-term1   = G'day en 1\n";
    let variant = r#"
message1 = Hello en 1
    .world = World 1
message2 = Hello en 2
-term1 = Hello en 1
-term2 = Hello en 2
"#;
    let pipeline = classified(&[("en-AU", canonical), ("en-GB", variant)], "en-AU", &[]).audit();
    assert_eq!(pipeline.issues().len(), 3);
    for i in ["message2", "-term2"] {
        assert_issue_has(pipeline.issues(), Kind::RedundantTranslation, Subject::Entry(locale("en-GB"), identifier(i)));
    }
}
