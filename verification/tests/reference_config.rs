use lingora::integrity::WithLocale;
use lingora::locale::Locale;
use lingora::reference_config::DioxusI18nConfigRenderer;
use lingora::settings::Settings;

fn locale(text: &str) -> Locale {
    Locale::from_str(text).ok().expect("valid locale")
}

fn settings(with_locale: WithLocale, shares: Vec<(Locale, Locale)>) -> Settings {
    Settings {
        root: "/proj/i18n/".to_string(),
        reference: "/proj/i18n/en/en-GB.ftl".to_string(),
        targets: Vec::new(),
        with_locale,
        shares,
        fallback: locale("en-GB"),
    }
}

fn targets() -> Vec<String> {
    vec!["/proj/i18n/it/it-IT.ftl".to_string(), "/proj/i18n/en/en-AU.ftl".to_string()]
}

#[test]
fn auto_configuration_loads_the_root_folder() {
    let renderer = DioxusI18nConfigRenderer::new(
        settings(WithLocale::Auto, vec![(locale("it"), locale("it-IT"))]),
        targets(),
        Some("/proj/src/config.rs"),
        "/work",
    );
    let code = renderer.try_render().expect("renderable");
    assert_eq!(
        code,
        [
            "use dioxus_i18n::{prelude::*, *};\n",
            "use unic_langid::{langid, LanguageIdentifier};\n",
            "use std::path::PathBuf;\n",
            "\n",
            "pub fn config(initial_language: LanguageIdentifier) -> I18nConfig {\n",
            "    I18nConfig::new(initial_language)\n",
            "        .with_auto_locales(PathBuf::from(\"proj/i18n\"))\n",
            "        .with_locale((\n",
            "            langid!(\"it\"),\n",
            "            PathBuf::from(\"proj/i18n/it/it-IT.ftl\")\n",
            "        ))\n",
            "        .with_fallback(langid!(\"en-GB\"))\n",
            "}\n",
        ]
        .concat()
    );
}

#[test]
fn included_locales_come_in_the_order_of_file_names() {
    let renderer = DioxusI18nConfigRenderer::new(
        settings(WithLocale::IncludeStr, Vec::new()),
        targets(),
        Some("/proj/src/config.rs"),
        "/work",
    );
    let code = renderer.render();
    assert_eq!(
        code,
        [
            "use dioxus_i18n::{prelude::*, *};\n",
            "use unic_langid::{langid, LanguageIdentifier};\n",
            "\n",
            "\n",
            "pub fn config(initial_language: LanguageIdentifier) -> I18nConfig {\n",
            "    I18nConfig::new(initial_language)\n",
            "        .with_locale((\n",
            "            langid!(\"en-AU\"),\n",
            "            include_str!(\"proj/i18n/en/en-AU.ftl\")\n",
            "        ))\n",
            "        .with_locale((\n",
            "            langid!(\"en-GB\"),\n",
            "            include_str!(\"proj/i18n/en/en-GB.ftl\")\n",
            "        ))\n",
            "        .with_locale((\n",
            "            langid!(\"it-IT\"),\n",
            "            include_str!(\"proj/i18n/it/it-IT.ftl\")\n",
            "        ))\n",
            "        .with_fallback(langid!(\"en-GB\"))\n",
            "}\n",
        ]
        .concat()
    );
}

#[test]
fn paths_outside_the_base_folder_are_kept_as_given() {
    let renderer = DioxusI18nConfigRenderer::new(
        settings(WithLocale::Auto, Vec::new()),
        Vec::new(),
        Some("/other/src/config.rs"),
        "/work",
    );
    let code = renderer.render();
    assert!(code.contains("        .with_auto_locales(PathBuf::from(\"/proj/i18n/\"))\n"));
}

#[test]
fn a_share_without_a_file_cannot_be_rendered() {
    let renderer = DioxusI18nConfigRenderer::new(
        settings(WithLocale::PathBuf, vec![(locale("fr"), locale("fr-FR"))]),
        targets(),
        Some("/proj/src/config.rs"),
        "/work",
    );
    assert!(!renderer.is_renderable());
    assert!(renderer.try_render().is_none());
}
