use lingora::analysis::{Analysis, AnalysisRenderer, IntegrityChecks};
use lingora::error::LingoraError;
use lingora::integrity::{Validated, Warning, WithLocale};
use lingora::locale::Locale;
use lingora::settings::{select_reference_file, InterimSettings, LingoraEntries, Settings};

fn strings(items: &[&str]) -> Vec<String> {
    items.iter().map(|s| s.to_string()).collect()
}

fn empty_table(locale: &str) -> InterimSettings {
    InterimSettings { locale: locale.to_string(), lingora: None, dioxus_i18n: None }
}

fn i18n_files() -> Vec<String> {
    strings(&[
        "tests/data/i18n/en/en.ftl",
        "tests/data/i18n/en/en-GB.ftl",
        "tests/data/i18n/en/en-AU.ftl",
        "tests/data/i18n/it/it-IT.ftl",
    ])
}

#[test]
fn have_reference_file_if_provided_in_command_line_arguments() {
    let interim = empty_table("en-GB").override_from_arguments(
        None,
        Some("path/to/en.ftl".to_string()),
        Vec::new(),
    );
    let settings = interim.with_defaulted_missing_entries(&Vec::new()).ok().expect("defaulted");
    let lingora = settings.lingora.expect("lingora table");
    assert_eq!(lingora.reference.as_deref(), Some("path/to/en.ftl"));
}

#[test]
fn have_reference_file_if_not_provided_but_sys_locale_file_is_in_target_folder() {
    let interim = empty_table("en-GB").override_from_arguments(None, None, strings(&["tests/data/i18n/"]));
    assert_eq!(interim.target_paths(), strings(&["tests/data/i18n/"]));
    let settings = interim.with_defaulted_missing_entries(&i18n_files()).ok().expect("defaulted");
    let reference = settings.lingora.expect("lingora table").reference.expect("reference");
    assert!(reference.ends_with("en-GB.ftl"));
    assert_eq!(reference, "tests/data/i18n/en/en-GB.ftl");
}

#[test]
fn fail_to_have_reference_file_if_not_provided_and_sys_locale_file_not_in_target_folder() {
    let interim = empty_table("en-GB").override_from_arguments(None, None, strings(&["tests/data/i18n_empty/"]));
    let error = interim.with_defaulted_missing_entries(&Vec::new()).err().expect("an error");
    assert!(matches!(error, LingoraError::CannotFindReferenceFile(_)));
    assert_eq!(error.to_message(), "cannot find reference file: en-GB.ftl");
}

#[test]
fn fail_to_have_reference_file_if_not_provided_and_multiple_sys_locale_files_in_target_folder() {
    let files = strings(&[
        "tests/data/i18n_duplicates/two/en-GB.ftl",
        "tests/data/i18n_duplicates/one/en-GB.ftl",
        "tests/data/i18n_duplicates/one/en-AU.ftl",
    ]);
    let interim = empty_table("en-GB").override_from_arguments(None, None, strings(&["tests/data/i18n_duplicates"]));
    let error = interim.with_defaulted_missing_entries(&files).err().expect("an error");
    assert!(matches!(error, LingoraError::AmbiguousReferenceFiles(_)));
    assert_eq!(
        error.to_message(),
        "ambiguous reference files:\n  tests/data/i18n_duplicates/one/en-GB.ftl\n  tests/data/i18n_duplicates/two/en-GB.ftl"
    );
}

#[test]
fn reference_file_is_matched_by_file_name_only() {
    let files = strings(&["a/en-GB.ftl.bak", "a/en-GB/x.ftl", "b/en-GB.ftl"]);
    let chosen = select_reference_file("en-GB", &files).ok().expect("one reference");
    assert_eq!(chosen, "b/en-GB.ftl");
}

#[test]
fn default_target_path_is_used_when_no_targets_provided() {
    let interim = InterimSettings {
        locale: "en-GB".to_string(),
        lingora: Some(LingoraEntries {
            root: Some("./tests/data/i18n/".to_string()),
            reference: None,
            targets: None,
        }),
        dioxus_i18n: None,
    };
    assert_eq!(interim.target_paths(), strings(&["./tests/data/i18n/"]));
    let found = strings(&[
        "./tests/data/i18n/en/en.ftl",
        "./tests/data/i18n/en/en-GB.ftl",
        "./tests/data/i18n/en/en-AU.ftl",
        "./tests/data/i18n/it/it-IT.ftl",
    ]);
    let settings = interim.with_defaulted_missing_entries(&found).ok().expect("defaulted");
    let lingora = settings.lingora.expect("lingora table");
    assert_eq!(lingora.reference.as_deref(), Some("./tests/data/i18n/en/en-GB.ftl"));
    assert_eq!(lingora.targets, Some(strings(&["./tests/data/i18n/"])));
    assert_eq!(lingora.root.as_deref(), Some("./tests/data/i18n/"));
}

#[test]
fn missing_entries_take_their_defaults() {
    let settings = empty_table("en-GB").with_defaulted_missing_entries(&strings(&["i18n/en-GB.ftl"])).ok().expect("defaulted");
    let lingora = settings.lingora.expect("lingora table");
    assert_eq!(lingora.root.as_deref(), Some("./i18n/"));
    assert_eq!(lingora.targets, Some(strings(&["./i18n/"])));
    assert_eq!(lingora.reference.as_deref(), Some("i18n/en-GB.ftl"));
    let dioxus = settings.dioxus_i18n.expect("dioxus_i18n table");
    assert_eq!(dioxus.with_locale.as_deref(), Some("auto"));
    assert_eq!(dioxus.shares, Some(Vec::new()));
    assert_eq!(dioxus.fallback.as_deref(), Some("en-GB"));
}

fn named(files: &[String]) -> Vec<(String, bool)> {
    files.iter().map(|f| (f.clone(), false)).collect()
}

fn under_folder(files: &[String]) -> Vec<(String, bool)> {
    files.iter().map(|f| (f.clone(), true)).collect()
}

#[test]
fn named_targets_are_kept_whatever_their_extension() {
    let settings = settings_with_reference("i18n/en-GB.ftl");
    let found = vec![("notes/extra.txt".to_string(), false), ("i18n/notes.txt".to_string(), true)];
    assert_eq!(settings.targets(&found), strings(&["notes/extra.txt"]));
}

fn settings_with_reference(reference: &str) -> Settings {
    Settings {
        root: "tests/data/i18n/".to_string(),
        reference: reference.to_string(),
        targets: Vec::new(),
        with_locale: WithLocale::Auto,
        shares: Vec::new(),
        fallback: Locale::from_str("en-GB").ok().expect("locale"),
    }
}

#[test]
fn not_have_reference_in_targets_even_when_requested() {
    let settings = settings_with_reference("tests/data/i18n/en/en-GB.ftl");
    let found = strings(&[
        "tests/data/i18n/en/en-GB.ftl",
        "tests/data/i18n/en/en-AU.ftl",
        "tests/data/i18n/it/it-IT.ftl",
    ]);
    let targets = settings.targets(&named(&found));
    assert_eq!(targets, strings(&["tests/data/i18n/en/en-AU.ftl", "tests/data/i18n/it/it-IT.ftl"]));
}

#[test]
fn reference_is_excluded_by_path_components() {
    let settings = settings_with_reference("tests/data/i18n/en/en-GB.ftl");
    let targets = settings.targets(&named(&strings(&["tests//data/i18n/en/en-GB.ftl", "tests/data/i18n/en/en.ftl"])));
    assert_eq!(targets, strings(&["tests/data/i18n/en/en.ftl"]));
}

#[test]
fn reference_locale_comes_from_the_reference_file_name() {
    let settings = settings_with_reference("tests/data/i18n/en/en-GB.ftl");
    let locale = settings.reference_locale().ok().expect("a locale");
    assert_eq!(locale.to_text(), "en-GB");
}

fn checks(entries: Vec<(&str, Vec<Warning>)>) -> IntegrityChecks {
    IntegrityChecks { entries: entries.into_iter().map(|(p, w)| (p.to_string(), w)).collect() }
}

fn i18n_checks() -> IntegrityChecks {
    checks(vec![
        ("tests/data/i18n/en/en-GB.ftl", Vec::new()),
        ("tests/data/i18n/en/en.ftl", Vec::new()),
        ("tests/data/i18n/en/en-AU.ftl", vec![Warning::MissingTranslation("b".to_string())]),
        ("tests/data/i18n/it/it-IT.ftl", Vec::new()),
    ])
}

#[test]
fn will_create_from_integrity_checks() {
    let analysis = Analysis::from(i18n_checks());
    assert_eq!(analysis.paths_by_locale_by_language().len(), 2);
}

#[test]
fn will_provide_primary_languages() {
    let analysis = Analysis::from(i18n_checks());
    let languages = analysis.paths_by_locale_by_language();
    assert_eq!(languages.len(), 2);
    assert!(matches!(&languages[0].0, Validated::Valid(l) if l == "en"));
    assert!(matches!(&languages[1].0, Validated::Valid(l) if l == "it"));
}

#[test]
fn files_are_grouped_by_locale_within_language() {
    let analysis = Analysis::from(i18n_checks());
    let english = analysis.paths_by_locale(&Validated::Valid("en".to_string()));
    assert_eq!(english.len(), 3);
    assert!(matches!(&english[0].0, Validated::Valid(id) if id.text == "en-GB"));
    assert_eq!(english[0].1, strings(&["tests/data/i18n/en/en-GB.ftl"]));
}

#[test]
fn files_named_as_no_locale_fall_under_unknown() {
    let analysis = Analysis::from(checks(vec![
        ("i18n/notes.txt.ftl", Vec::new()),
        ("i18n/12.ftl", Vec::new()),
    ]));
    let languages = analysis.paths_by_locale_by_language();
    assert_eq!(languages.len(), 1);
    assert!(matches!(&languages[0].0, Validated::Invalid(s) if s == "≪Unknown≫"));
    assert_eq!(languages[0].1.len(), 2);
    assert!(matches!(&languages[0].1[0].0, Validated::Invalid(s) if s == "notes.txt.ftl"));
}

#[test]
fn checks_are_found_by_path() {
    let analysis = Analysis::from(i18n_checks());
    assert!(analysis.has_checks("tests/data/i18n/en/en-AU.ftl"));
    assert_eq!(analysis.checks("tests/data/i18n/en/en-AU.ftl").len(), 1);
    assert!(analysis.checks_of("tests/data/i18n/fr/fr.ftl").is_none());
}

#[test]
fn analysis_report_lists_reference_then_sorted_targets() {
    let analysis = Analysis::from(checks(vec![
        ("i18n/it/it-IT.ftl", vec![
            Warning::SuperfluousTranslation("z".to_string()),
            Warning::MissingTranslation("b".to_string()),
            Warning::MissingTranslation("a".to_string()),
        ]),
        ("i18n/en/en-GB.ftl", Vec::new()),
        ("i18n/en/en-AU.ftl", Vec::new()),
    ]));
    let renderer = AnalysisRenderer::new("i18n/en/en-GB.ftl", analysis);
    let text = renderer.render();
    assert_eq!(
        text,
        [
            "Reference: i18n/en/en-GB.ftl - Ok\n",
            "Target: i18n/en/en-AU.ftl - Ok\n",
            "Target: i18n/it/it-IT.ftl\n",
            "    Missing translation: a\n",
            "                         b\n",
            "    Superfluous translation: z\n",
        ]
        .concat()
    );
}

#[test]
fn analysis_report_needs_the_reference_among_the_checks() {
    let renderer = AnalysisRenderer::new("i18n/fr.ftl", Analysis::from(i18n_checks()));
    assert!(renderer.try_render().is_none());
}

#[test]
fn settings_are_written_as_their_tables() {
    let settings = Settings {
        root: "i18n/".to_string(),
        reference: "i18n/en/en-GB.ftl".to_string(),
        targets: strings(&["i18n/en/en-AU.ftl", "i18n/it/it-IT.ftl"]),
        with_locale: WithLocale::PathBuf,
        shares: vec![(
            Locale::from_str("it").ok().expect("locale"),
            Locale::from_str("it-IT").ok().expect("locale"),
        )],
        fallback: Locale::from_str("en-GB").ok().expect("locale"),
    };
    assert_eq!(
        settings.to_text(),
        "[lingora]\nroot = \"i18n/\"\nreference = \"i18n/en/en-GB.ftl\"\ntargets = [\"i18n/en/en-AU.ftl\", \"i18n/it/it-IT.ftl\"]\n\n[dioxus_i18n]\nwith_locale = \"pathbuf\"\nshares = [(\"it\", \"it-IT\")]\nfallback = \"en-GB\""
    );
}

fn count_files(file_name: &str, files: &[String]) -> usize {
    files.iter().filter(|f| f.ends_with(file_name)).count()
}

#[test]
fn have_targets_when_explicitly_provided_command_line_arguments() {
    let settings = settings_with_reference("tests/data/i18n/en/en-GB.ftl");
    let found = strings(&["tests/data/i18n/en/en-AU.ftl", "tests/data/i18n/it/it-IT.ftl"]);
    let targets = settings.targets(&named(&found));
    assert_eq!(count_files("tests/data/i18n/en/en.ftl", &targets), 0);
    assert_eq!(count_files("tests/data/i18n/en/en-GB.ftl", &targets), 0);
    assert_eq!(count_files("tests/data/i18n/en/en-AU.ftl", &targets), 1);
    assert_eq!(count_files("tests/data/i18n/it/it-IT.ftl", &targets), 1);
}

#[test]
fn have_targets_when_implicitly_provided_command_line_arguments() {
    let settings = settings_with_reference("tests/data/i18n/en/en-GB.ftl");
    let mut found = under_folder(&i18n_files());
    found.push(("tests/data/i18n/README.md".to_string(), true));
    let targets = settings.targets(&found);
    assert_eq!(count_files("README.md", &targets), 0);
    assert_eq!(count_files("tests/data/i18n/en/en.ftl", &targets), 1);
    assert_eq!(count_files("tests/data/i18n/en/en-GB.ftl", &targets), 0);
    assert_eq!(count_files("tests/data/i18n/en/en-AU.ftl", &targets), 1);
    assert_eq!(count_files("tests/data/i18n/it/it-IT.ftl", &targets), 1);
}

#[test]
fn default_reference_path_is_used_when_no_targets_provided() {
    let interim = InterimSettings {
        locale: "en-GB".to_string(),
        lingora: Some(LingoraEntries { root: Some("./tests/data/i18n/".to_string()), reference: None, targets: None }),
        dioxus_i18n: None,
    };
    let found = strings(&[
        "./tests/data/i18n/en/en.ftl",
        "./tests/data/i18n/en/en-GB.ftl",
        "./tests/data/i18n/it/it-IT.ftl",
    ]);
    let settings = interim.with_defaulted_missing_entries(&found).ok().expect("defaulted");
    let reference = settings.lingora.expect("lingora table").reference.expect("reference");
    assert!(reference.ends_with("/en-GB.ftl"));
}
