//! The settings of an audit, as read from `Lingora.toml` and overridden by
//! command-line arguments.
use vstd::prelude::*;
use crate::locale::{copy_locales, locales_view, Locale, LocaleModel};
use crate::text::views;

verus! {

/// How generated `dioxus_i18n` configuration code includes the translation
/// files.
#[derive(Clone, Copy, Debug, PartialEq, Eq, Structural)]
pub enum ConfigInclusionStyle {
    /// `include_str!` of each file.
    IncludeStr,
    /// `PathBuf::from` of each file.
    PathBuf,
    /// `with_auto_locales` of each folder.
    Auto,
}

/// The settings of the audit engine.
pub struct EngineSettings {
    /// The files and folders holding Fluent files.
    pub fluent_sources: Vec<String>,
    /// The canonical locale.
    pub canonical: Locale,
    /// The primary locales.
    pub primaries: Vec<Locale>,
}

/// The settings for `dioxus_i18n` users.
pub struct DioxusI18nSettings {
    /// The files and folders holding Rust sources.
    pub rust_sources: Vec<String>,
    /// How generated configuration code includes translation files.
    pub config_inclusion: ConfigInclusionStyle,
}

/// The settings of a `Lingora.toml` file.
pub struct LingoraToml {
    pub lingora: EngineSettings,
    pub dioxus_i18n: DioxusI18nSettings,
}

/// The settings, as views.
pub struct TomlModel {
    pub fluent_sources: Seq<Seq<char>>,
    pub canonical: LocaleModel,
    pub primaries: Seq<LocaleModel>,
    pub rust_sources: Seq<Seq<char>>,
    pub config_inclusion: ConfigInclusionStyle,
}

impl View for LingoraToml {
    type V = TomlModel;

    open spec fn view(&self) -> TomlModel {
        TomlModel {
            fluent_sources: views(self.lingora.fluent_sources@),
            canonical: self.lingora.canonical@,
            primaries: locales_view(self.lingora.primaries@),
            rust_sources: views(self.dioxus_i18n.rust_sources@),
            config_inclusion: self.dioxus_i18n.config_inclusion,
        }
    }
}

/// Command-line arguments that supplement or override the settings.
pub struct CoreArgs {
    /// The configuration file to read.
    pub config: Option<String>,
    /// More files and folders holding Fluent files.
    pub fluent_sources: Vec<String>,
    /// The canonical locale, in place of the configured one.
    pub canonical: Option<Locale>,
    /// More primary locales.
    pub primaries: Vec<Locale>,
    /// More files and folders holding Rust sources.
    pub rust_sources: Vec<String>,
    /// How generated configuration code includes translation files, in place
    /// of the configured style.
    pub config_inclusion: Option<ConfigInclusionStyle>,
}

/// The arguments, as views.
pub struct ArgsModel {
    pub config: Option<Seq<char>>,
    pub fluent_sources: Seq<Seq<char>>,
    pub canonical: Option<LocaleModel>,
    pub primaries: Seq<LocaleModel>,
    pub rust_sources: Seq<Seq<char>>,
    pub config_inclusion: Option<ConfigInclusionStyle>,
}

impl View for CoreArgs {
    type V = ArgsModel;

    open spec fn view(&self) -> ArgsModel {
        ArgsModel {
            config: match self.config {
                Some(c) => Some(c@),
                None => None,
            },
            fluent_sources: views(self.fluent_sources@),
            canonical: match self.canonical {
                Some(l) => Some(l@),
                None => None,
            },
            primaries: locales_view(self.primaries@),
            rust_sources: views(self.rust_sources@),
            config_inclusion: self.config_inclusion,
        }
    }
}

/// The settings overridden by arguments: the sources and primaries of the
/// arguments are added after the configured ones; a canonical locale or an
/// inclusion style given as argument replaces the configured one.
pub open spec fn merged_settings(t: TomlModel, a: ArgsModel) -> TomlModel {
    TomlModel {
        fluent_sources: t.fluent_sources + a.fluent_sources,
        canonical: match a.canonical {
            Some(l) => l,
            None => t.canonical,
        },
        primaries: t.primaries + a.primaries,
        rust_sources: t.rust_sources + a.rust_sources,
        config_inclusion: match a.config_inclusion {
            Some(s) => s,
            None => t.config_inclusion,
        },
    }
}

/// Copies of a sequence of strings.
pub fn copy_strings(s: &Vec<String>) -> (res: Vec<String>)
    ensures
        views(res@) == views(s@),
{
    let mut res: Vec<String> = Vec::new();
    let n = s.len();
    let mut i: usize = 0;
    while i < n
        invariant
            n == s.len(),
            i <= n,
            res.len() == i,
            forall|j: int| 0 <= j < i ==> (#[trigger] res@[j])@ == s@[j]@,
        decreases n - i,
    {
        res.push(s[i].clone());
        i += 1;
    }
    assert(views(res@) =~= views(s@));
    res
}

/// Appends copies of `extra` to `dst`.
fn append_strings(dst: &mut Vec<String>, extra: &Vec<String>)
    ensures
        views(final(dst)@) == views(old(dst)@) + views(extra@),
{
    let mut more = copy_strings(extra);
    let ghost a = views(dst@);
    let ghost b = views(more@);
    dst.append(&mut more);
    assert(views(dst@) =~= a + b);
}

/// Appends copies of `extra` to `dst`.
fn append_locales(dst: &mut Vec<Locale>, extra: &Vec<Locale>)
    ensures
        locales_view(final(dst)@) == locales_view(old(dst)@) + locales_view(extra@),
{
    let mut more = copy_locales(extra);
    let ghost a = locales_view(dst@);
    let ghost b = locales_view(more@);
    dst.append(&mut more);
    assert(locales_view(dst@) =~= a + b);
}

impl LingoraToml {
    /// The settings used when no configuration file is given: Fluent files
    /// under `./i18n`, Rust sources under `./src`, the system locale as the
    /// canonical locale, no primaries, and `Auto` inclusion.
    pub fn default_settings() -> (res: LingoraToml)
        ensures
            res@.fluent_sources == seq!["./i18n"@],
            res@.primaries.len() == 0,
            res@.rust_sources == seq!["./src"@],
            res@.config_inclusion == ConfigInclusionStyle::Auto,
            res@.canonical == crate::locale::english_model() || exists|t: Seq<char>|
                crate::locale::locale_from_text(t) == Ok::<LocaleModel, Seq<char>>(res@.canonical),
    {
        let mut fluent_sources: Vec<String> = Vec::new();
        fluent_sources.push(String::from_str("./i18n"));
        let mut rust_sources: Vec<String> = Vec::new();
        rust_sources.push(String::from_str("./src"));
        let primaries: Vec<Locale> = Vec::new();
        let res = LingoraToml {
            lingora: EngineSettings { fluent_sources, canonical: Locale::system_default(), primaries },
            dioxus_i18n: DioxusI18nSettings { rust_sources, config_inclusion: ConfigInclusionStyle::Auto },
        };
        assert(res@.fluent_sources =~= seq!["./i18n"@]);
        assert(res@.rust_sources =~= seq!["./src"@]);
        res
    }

    /// A copy of these settings.
    pub fn copy(&self) -> (res: LingoraToml)
        ensures
            res@ == self@,
    {
        LingoraToml {
            lingora: EngineSettings {
                fluent_sources: copy_strings(&self.lingora.fluent_sources),
                canonical: self.lingora.canonical.copy(),
                primaries: copy_locales(&self.lingora.primaries),
            },
            dioxus_i18n: DioxusI18nSettings {
                rust_sources: copy_strings(&self.dioxus_i18n.rust_sources),
                config_inclusion: self.dioxus_i18n.config_inclusion,
            },
        }
    }

    /// These settings overridden by command-line arguments.
    pub fn with_args(self, args: &CoreArgs) -> (res: LingoraToml)
        ensures
            res@ == merged_settings(self@, args@),
    {
        let mut toml = self;
        append_strings(&mut toml.lingora.fluent_sources, &args.fluent_sources);
        match &args.canonical {
            Some(locale) => {
                toml.lingora.canonical = locale.copy();
            },
            None => {},
        }
        append_locales(&mut toml.lingora.primaries, &args.primaries);
        append_strings(&mut toml.dioxus_i18n.rust_sources, &args.rust_sources);
        match args.config_inclusion {
            Some(style) => {
                toml.dioxus_i18n.config_inclusion = style;
            },
            None => {},
        }
        toml
    }
}

impl Default for LingoraToml {
    fn default() -> (res: LingoraToml)
        ensures
            res@.fluent_sources == seq!["./i18n"@],
            res@.primaries.len() == 0,
            res@.rust_sources == seq!["./src"@],
            res@.config_inclusion == ConfigInclusionStyle::Auto,
    {
        LingoraToml::default_settings()
    }
}

} // verus!
