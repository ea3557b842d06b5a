use lingora::config::{ConfigInclusionStyle, DioxusI18nSettings, EngineSettings, LingoraToml};
use lingora::dioxus::{relative_path_string, DioxusI18nConfigRenderer};
use lingora::document::FluentFile;
use lingora::engine::AuditEngine;
use lingora::locale::Locale;
use lingora::report::AnalysisRenderer;
use lingora::text::replace_text;
use lingora::workspace::Workspace;

fn locale(text: &str) -> Locale {
    Locale::from_str(text).ok().expect("valid locale")
}

fn workspace(paths: &[&str], canonical: &str, primaries: &[&str]) -> Workspace {
    let files = paths
        .iter()
        .map(|p| FluentFile::try_from_path(p, true).ok().expect("valid file"))
        .collect::<Vec<_>>();
    Workspace::new(files, locale(canonical), primaries.iter().map(|p| locale(p)).collect(), vec![])
}

fn report(paths: &[&str], contents: &[&str], canonical: &str, primaries: &[&str]) -> String {
    let engine = AuditEngine::new(workspace(paths, canonical, primaries));
    let contents = contents.iter().map(|c| c.to_string()).collect::<Vec<_>>();
    let result = engine.run(&contents);
    AnalysisRenderer::new(&result).render()
}

#[test]
fn report_when_no_errors() {
    let text = report(
        &["i18n/en/en-GB.ftl", "i18n/en/en-AU.ftl", "i18n/it/it-IT.ftl"],
        &["message = Hello\n", "message = G'day\n", "message = Ciao\n"],
        "en-GB",
        &["it-IT"],
    );
    assert_eq!(
        text,
        "Language:  en\nCanonical: en-GB - Ok\nVariant:   en-AU - Ok\nLanguage:  it\nPrimary:   it-IT - Ok\n"
    );
}

#[test]
fn report_lists_issues_under_their_locale() {
    let text = report(
        &["i18n/en/en-GB.ftl", "i18n/it/it-IT.ftl", "i18n/de/de-DE.ftl"],
        &[
            "message1 = Hello\nmessage2 = Again\n",
            "message1 = Ciao\n-brand = Marca\n",
            "message1 = Hallo\n",
        ],
        "en-GB",
        &["it-IT"],
    );
    assert_eq!(
        text,
        [
            "Workspace: de\n",
            "           missing base locale/s for 'de-DE'\n",
            "Language:  en\n",
            "Canonical: en-GB - Ok\n",
            "Language:  it\n",
            "Primary:   it-IT\n",
            "           missing translation 'message2'\n",
            "           redundant translation '-brand'\n",
            "Orphaned:  de-DE - Ok\n",
        ].concat()
    );
}

#[test]
fn relative_paths_climb_from_the_target() {
    assert_eq!(relative_path_string("/proj/src", "/proj/i18n/en/en-GB.ftl", "/work"), "../i18n/en/en-GB.ftl");
    assert_eq!(relative_path_string("src", "i18n/it-IT.ftl", "/proj"), "../i18n/it-IT.ftl");
    assert_eq!(relative_path_string("/proj/src", "/proj/src/a.ftl", "/"), "a.ftl");
}

#[test]
fn replace_text_replaces_every_occurrence() {
    assert_eq!(replace_text("a--b--c", "--", "+"), "a+b+c");
    assert_eq!(replace_text("aaa", "aa", "b"), "ba");
    assert_eq!(replace_text("none", "x", "y"), "none");
}

fn settings(style: ConfigInclusionStyle, sources: &[&str]) -> LingoraToml {
    LingoraToml {
        lingora: EngineSettings {
            fluent_sources: sources.iter().map(|s| s.to_string()).collect(),
            canonical: locale("en-GB"),
            primaries: vec![locale("fr-FR"), locale("it-IT")],
        },
        dioxus_i18n: DioxusI18nSettings { rust_sources: vec![], config_inclusion: style },
    }
}

const FILES: [&str; 3] = ["/proj/i18n/it/it-IT.ftl", "/proj/i18n/en/en-GB.ftl", "/proj/i18n/en/en-AU.ftl"];

#[test]
fn dioxus_config_for_include_str() {
    let ws = workspace(&FILES, "en-GB", &["fr-FR", "it-IT"]);
    let renderer = DioxusI18nConfigRenderer::new(
        &settings(ConfigInclusionStyle::IncludeStr, &["/proj/i18n"]),
        &ws,
        Some("/proj/src"),
        "/work",
        &vec![true],
    );
    let expected = [
        "use dioxus_i18n::{prelude::*, *};\n",
        "use unic_langid::{langid, LanguageIdentifier};\n",
        "\n",
        "\n",
        "pub fn config(initial_language: LanguageIdentifier) -> I18nConfig {\n",
        "    I18nConfig::new(initial_language)\n",
        "        .with_locale((\n",
        "            langid!(\"en-AU\"),\n",
        "            include_str!(\"../i18n/en/en-AU.ftl\")\n",
        "        ))\n",
        "        .with_locale((\n",
        "            langid!(\"en-GB\"),\n",
        "            include_str!(\"../i18n/en/en-GB.ftl\")\n",
        "        ))\n",
        "        .with_locale((\n",
        "            langid!(\"it-IT\"),\n",
        "            include_str!(\"../i18n/it/it-IT.ftl\")\n",
        "        ))\n",
        "        .with_locale(langid!(\"it\"), include_str!(\"../i18n/it/it-IT.ftl\"))\n",
        "        .with_locale(langid!(\"en\"), include_str!(\"../i18n/en/en-GB.ftl\"))\n",
        "        .with_fallback(langid!(\"en-GB\"))\n",
        "}\n",
    ].concat();
    assert_eq!(renderer.render(), expected);
}

#[test]
fn dioxus_config_for_auto() {
    let ws = workspace(&FILES, "en-GB", &["fr-FR", "it-IT"]);
    let renderer = DioxusI18nConfigRenderer::new(
        &settings(ConfigInclusionStyle::Auto, &["/proj/i18n", "/proj/extra.ftl"]),
        &ws,
        Some("/proj/src"),
        "/work",
        &vec![true, false],
    );
    let expected = [
        "use dioxus_i18n::{prelude::*, *};\n",
        "use unic_langid::{langid, LanguageIdentifier};\n",
        "use std::path::PathBuf;\n",
        "\n",
        "pub fn config(initial_language: LanguageIdentifier) -> I18nConfig {\n",
        "    I18nConfig::new(initial_language)\n",
        "        .with_auto_locales(PathBuf::from(\"../i18n\"))\n",
        "        .with_locale(langid!(\"it\"), PathBuf::from(\"../i18n/it/it-IT.ftl\"))\n",
        "        .with_locale(langid!(\"en\"), PathBuf::from(\"../i18n/en/en-GB.ftl\"))\n",
        "        .with_fallback(langid!(\"en-GB\"))\n",
        "}\n",
    ].concat();
    assert_eq!(renderer.render(), expected);
}
