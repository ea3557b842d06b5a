//! Generation of the Rust code that builds a `dioxus_i18n::I18nConfig` for
//! the files of a workspace.
use vstd::prelude::*;
use crate::config::{ConfigInclusionStyle, LingoraToml, TomlModel};
use crate::document::{FileModel, FluentFile};
use crate::locale::{contains_locale, locale_order, locale_text, root_of, root_text, LocaleModel};
use crate::paths::{components_of, components_view, file_stem_of, path_components, path_file_stem, ComponentModel, PathComponent};
use crate::sorting::{insertion_sorted, lemma_insert_before_at};
use crate::text::{concat_texts, replace_all, replace_text, views};
use crate::workspace::{files_view, Workspace, WorkspaceModel};

verus! {

/// Whether `std::path::Path::is_absolute` holds of a path.
pub uninterp spec fn is_absolute_of(path: Seq<char>) -> bool;

/// The text of `std::path::Path::join` of two paths.
pub uninterp spec fn joined_of(base: Seq<char>, path: Seq<char>) -> Seq<char>;

/// The text of the `std::path::PathBuf` collected from the given parts.
pub uninterp spec fn path_of_parts(parts: Seq<Seq<char>>) -> Seq<char>;

/// `std::path::Path::is_absolute` of `path`. The contract names the result
/// `is_absolute_of(path)`.
#[verifier::external_body]
fn path_is_absolute(path: &str) -> (res: bool)
    ensures
        res == is_absolute_of(path@),
{
    std::path::Path::new(path).is_absolute()
}

/// `std::path::Path::join` of `base` and `path`, as text. The contract
/// names the result `joined_of(base, path)`.
#[verifier::external_body]
fn path_join(base: &str, path: &str) -> (res: String)
    ensures
        res@ == joined_of(base@, path@),
{
    std::path::Path::new(base).join(path).to_string_lossy().to_string()
}

/// The `std::path::PathBuf` collected from `parts` (each pushed in turn),
/// as text. The contract names the result `path_of_parts(parts)`.
#[verifier::external_body]
pub(crate) fn path_from_parts(parts: &Vec<String>) -> (res: String)
    ensures
        res@ == path_of_parts(views(parts@)),
{
    parts.iter().collect::<std::path::PathBuf>().to_string_lossy().to_string()
}

/// A path made absolute: as it is when absolute, else joined to `cwd`.
pub open spec fn absolute_of(path: Seq<char>, cwd: Seq<char>) -> Seq<char> {
    if is_absolute_of(path) {
        path
    } else {
        joined_of(cwd, path)
    }
}

/// The number of leading components two paths share.
pub open spec fn common_prefix_len(a: Seq<ComponentModel>, b: Seq<ComponentModel>) -> nat
    decreases a.len(),
{
    if a.len() == 0 || b.len() == 0 || a[0] != b[0] {
        0
    } else {
        1 + common_prefix_len(a.drop_first(), b.drop_first())
    }
}

/// The text of a component, as `std::path::Component::as_os_str` gives it.
pub open spec fn component_text(c: ComponentModel) -> Seq<char> {
    match c {
        ComponentModel::Prefix(p) => p,
        ComponentModel::RootDir => "/"@,
        ComponentModel::CurDir => "."@,
        ComponentModel::ParentDir => ".."@,
        ComponentModel::Normal(n) => n,
    }
}

/// The path of `to` relative to `from`, both made absolute against `cwd`:
/// `..` for each component of `from` past the common prefix, then the
/// components of `to` past it; `to` as given when they share nothing.
pub open spec fn relative_path_of(from: Seq<char>, to: Seq<char>, cwd: Seq<char>) -> Seq<char> {
    let fc = components_of(absolute_of(from, cwd));
    let tc = components_of(absolute_of(to, cwd));
    let k = common_prefix_len(fc, tc);
    if k == 0 {
        to
    } else {
        path_of_parts(
            Seq::new((fc.len() - k) as nat, |i: int| ".."@) + tc.skip(k as int).map_values(|c: ComponentModel| component_text(c)),
        )
    }
}

/// The text of a component.
pub(crate) fn component_string(c: &PathComponent) -> (res: String)
    ensures
        res@ == component_text(c@),
{
    match c {
        PathComponent::Prefix(p) => p.clone(),
        PathComponent::RootDir => String::from_str("/"),
        PathComponent::CurDir => String::from_str("."),
        PathComponent::ParentDir => String::from_str(".."),
        PathComponent::Normal(n) => n.clone(),
    }
}

/// A path made absolute against `cwd`.
pub(crate) fn absolute_path(path: &str, cwd: &str) -> (res: String)
    ensures
        res@ == absolute_of(path@, cwd@),
{
    if path_is_absolute(path) {
        String::from_str(path)
    } else {
        path_join(cwd, path)
    }
}

/// The path of `to` relative to `from`.
pub fn relative_path_string(from: &str, to: &str, cwd: &str) -> (res: String)
    ensures
        res@ == relative_path_of(from@, to@, cwd@),
{
    let from_abs = absolute_path(from, cwd);
    let to_abs = absolute_path(to, cwd);
    let fc = path_components(from_abs.as_str());
    let tc = path_components(to_abs.as_str());
    let ghost fv = components_view(fc@);
    let ghost tv = components_view(tc@);
    let n = fc.len();
    let m = tc.len();
    let mut k: usize = 0;
    assert(fv.skip(0) =~= fv);
    assert(tv.skip(0) =~= tv);
    while k < n && k < m && fc[k].same_as(&tc[k])
        invariant
            n == fc.len(),
            m == tc.len(),
            fv == components_view(fc@),
            tv == components_view(tc@),
            k <= n,
            k <= m,
            common_prefix_len(fv, tv) == k + common_prefix_len(fv.skip(k as int), tv.skip(k as int)),
        decreases n - k,
    {
        assert(fv.skip(k as int)[0] == fc@[k as int]@);
        assert(tv.skip(k as int)[0] == tc@[k as int]@);
        assert(fv.skip(k as int).drop_first() =~= fv.skip(k + 1));
        assert(tv.skip(k as int).drop_first() =~= tv.skip(k + 1));
        k += 1;
    }
    assert(common_prefix_len(fv.skip(k as int), tv.skip(k as int)) == 0) by {
        if k < n && k < m {
            assert(fv.skip(k as int)[0] == fc@[k as int]@);
            assert(tv.skip(k as int)[0] == tc@[k as int]@);
        }
    }
    if k == 0 {
        return String::from_str(to);
    }
    let mut parts: Vec<String> = Vec::new();
    let up = n - k;
    let mut j: usize = 0;
    while j < up
        invariant
            j <= up,
            parts.len() == j,
            forall|q: int| 0 <= q < j ==> (#[trigger] parts@[q])@ == ".."@,
        decreases up - j,
    {
        parts.push(String::from_str(".."));
        j += 1;
    }
    let mut q: usize = k;
    while q < m
        invariant
            m == tc.len(),
            k <= q <= m,
            parts.len() == up + (q - k),
            forall|r: int| 0 <= r < up ==> (#[trigger] parts@[r])@ == ".."@,
            forall|r: int| up <= r < up + (q - k) ==> (#[trigger] parts@[r])@ == component_text(tc@[r - up + k]@),
        decreases m - q,
    {
        parts.push(component_string(&tc[q]));
        q += 1;
    }
    assert(views(parts@) =~= Seq::new((fv.len() - k) as nat, |i: int| ".."@) + tv.skip(k as int).map_values(|c: ComponentModel| component_text(c)));
    path_from_parts(&parts)
}

/// One file sorts after another when its locale does.
pub open spec fn file_locale_after() -> spec_fn(FileModel, FileModel) -> bool {
    |y: FileModel, x: FileModel| locale_order(y.locale, x.locale) > 0
}

/// The file stem of a path, or the empty text when it has none.
pub open spec fn stem_text(path: Seq<char>) -> Seq<char> {
    match file_stem_of(path) {
        Some(s) => s,
        None => Seq::empty(),
    }
}

/// The `with_locale` call for one file.
pub open spec fn locale_call(langid: Seq<char>, prefix: Seq<char>, path: Seq<char>) -> Seq<char> {
    "        .with_locale((\n            langid!(\""@ + langid + "\"),\n            "@ + prefix + "(\""@ + path
        + "\")\n        ))\n"@
}

/// The code of the template, with its four placeholders.
pub open spec fn config_template() -> Seq<char> {
    "use dioxus_i18n::{prelude::*, *};\nuse unic_langid::{langid, LanguageIdentifier};\n/*** INCLUDE ***/\n\npub fn config(initial_language: LanguageIdentifier) -> I18nConfig {\n    I18nConfig::new(initial_language)\n/*** LOCALES ***//*** SHARES ***//*** FALLBACK ***/}\n"@
}

/// What the generated code is made from.
pub struct DioxusModel {
    pub settings: TomlModel,
    pub workspace: WorkspaceModel,
    pub target_source_path: Seq<char>,
    pub current_dir: Seq<char>,
    pub source_is_dir: Seq<bool>,
}

/// The import the code needs.
pub open spec fn import_text(m: DioxusModel) -> Seq<char> {
    match m.settings.config_inclusion {
        ConfigInclusionStyle::IncludeStr => Seq::empty(),
        _ => "use std::path::PathBuf;"@,
    }
}

/// A path relative to the target source path.
pub open spec fn relative_to_target(m: DioxusModel, path: Seq<char>) -> Seq<char> {
    relative_path_of(m.target_source_path, path, m.current_dir)
}

/// A `with_locale` call for each file, in the order of locales.
pub open spec fn locales_with_prefix(m: DioxusModel, prefix: Seq<char>) -> Seq<char> {
    concat_texts(
        insertion_sorted(m.workspace.fluent_files, file_locale_after()),
        |f: FileModel| locale_call(stem_text(f.path), prefix, relative_to_target(m, f.path)),
    )
}

/// A `with_auto_locales` call for each Fluent source that is a folder.
pub open spec fn auto_locales_text(m: DioxusModel) -> Seq<char> {
    concat_texts(
        Seq::new(m.settings.fluent_sources.len(), |k: int| k),
        |k: int| if k < m.source_is_dir.len() && m.source_is_dir[k] {
            "        .with_auto_locales(PathBuf::from(\""@ + relative_to_target(m, m.settings.fluent_sources[k]) + "\"))\n"@
        } else {
            Seq::empty()
        },
    )
}

/// The locale calls of the inclusion style.
pub open spec fn locales_text(m: DioxusModel) -> Seq<char> {
    match m.settings.config_inclusion {
        ConfigInclusionStyle::IncludeStr => locales_with_prefix(m, "include_str!"@),
        ConfigInclusionStyle::PathBuf => locales_with_prefix(m, "PathBuf::from"@),
        ConfigInclusionStyle::Auto => auto_locales_text(m),
    }
}

/// Whether a file is shared under its language root: its locale is a base
/// locale that names a region or a variant.
pub open spec fn is_shared(ws: WorkspaceModel, l: LocaleModel) -> bool {
    ws.primaries.push(ws.canonical).contains(l) && !(l.region is None && l.variants.len() == 0)
}

/// A `with_locale` call under its language root for each shared file, in
/// file order.
pub open spec fn shares_with_prefix(m: DioxusModel, prefix: Seq<char>) -> Seq<char> {
    concat_texts(
        m.workspace.fluent_files,
        |f: FileModel| if is_shared(m.workspace, f.locale) {
            "        .with_locale(langid!(\""@ + root_text(root_of(f.locale)) + "\"), "@ + prefix + "(\""@
                + relative_to_target(m, f.path) + "\"))\n"@
        } else {
            Seq::empty()
        },
    )
}

/// The calls for the shared files, in the inclusion style.
pub open spec fn shares_text(m: DioxusModel) -> Seq<char> {
    match m.settings.config_inclusion {
        ConfigInclusionStyle::IncludeStr => shares_with_prefix(m, "include_str!"@),
        _ => shares_with_prefix(m, "PathBuf::from"@),
    }
}

/// The fallback call: the canonical locale of the settings.
pub open spec fn fallback_text(m: DioxusModel) -> Seq<char> {
    "        .with_fallback(langid!(\""@ + locale_text(m.settings.canonical) + "\"))\n"@
}

/// The generated code: the template with its placeholders filled in.
pub open spec fn config_code(m: DioxusModel) -> Seq<char> {
    replace_all(
        replace_all(
            replace_all(
                replace_all(config_template(), "/*** INCLUDE ***/"@, import_text(m)),
                "/*** LOCALES ***/"@,
                locales_text(m),
            ),
            "/*** SHARES ***/"@,
            shares_text(m),
        ),
        "/*** FALLBACK ***/"@,
        fallback_text(m),
    )
}

/// Generates `dioxus_i18n` configuration code for a workspace.
pub struct DioxusI18nConfigRenderer {
    settings: LingoraToml,
    workspace: Workspace,
    target_source_path: String,
    current_dir: String,
    source_is_dir: Vec<bool>,
}

impl View for DioxusI18nConfigRenderer {
    type V = DioxusModel;

    closed spec fn view(&self) -> DioxusModel {
        DioxusModel {
            settings: self.settings@,
            workspace: self.workspace@,
            target_source_path: self.target_source_path@,
            current_dir: self.current_dir@,
            source_is_dir: self.source_is_dir@,
        }
    }
}

impl DioxusI18nConfigRenderer {
    /// The renderer of the settings and workspace; paths in the code are
    /// relative to `target_source_path` (`.` when none is given), made
    /// absolute against `current_dir`. `source_is_dir` tells which Fluent
    /// sources of the settings are folders.
    pub fn new(
        settings: &LingoraToml,
        workspace: &Workspace,
        target_source_path: Option<&str>,
        current_dir: &str,
        source_is_dir: &Vec<bool>,
    ) -> (res: DioxusI18nConfigRenderer)
        ensures
            res@ == (DioxusModel {
                settings: settings@,
                workspace: workspace@,
                target_source_path: match target_source_path {
                    Some(p) => p@,
                    None => "."@,
                },
                current_dir: current_dir@,
                source_is_dir: source_is_dir@,
            }),
    {
        let target = match target_source_path {
            Some(p) => String::from_str(p),
            None => String::from_str("."),
        };
        let mut dirs: Vec<bool> = Vec::new();
        let n = source_is_dir.len();
        let mut i: usize = 0;
        while i < n
            invariant
                n == source_is_dir.len(),
                i <= n,
                dirs@ == source_is_dir@.take(i as int),
            decreases n - i,
        {
            dirs.push(source_is_dir[i]);
            assert(dirs@ =~= source_is_dir@.take(i + 1));
            i += 1;
        }
        assert(source_is_dir@.take(n as int) =~= source_is_dir@);
        DioxusI18nConfigRenderer {
            settings: settings.copy(),
            workspace: workspace.copy(),
            target_source_path: target,
            current_dir: String::from_str(current_dir),
            source_is_dir: dirs,
        }
    }

    /// A path relative to the target source path.
    fn relative(&self, path: &str) -> (res: String)
        ensures
            res@ == relative_to_target(self@, path@),
    {
        relative_path_string(self.target_source_path.as_str(), path, self.current_dir.as_str())
    }

    /// The import the code needs.
    fn import_line(&self) -> (res: String)
        ensures
            res@ == import_text(self@),
    {
        match self.settings.dioxus_i18n.config_inclusion {
            ConfigInclusionStyle::IncludeStr => String::new(),
            _ => String::from_str("use std::path::PathBuf;"),
        }
    }

    /// A `with_locale` call for each file, in the order of locales.
    fn locales_using_prefix(&self, prefix: &str) -> (res: String)
        ensures
            res@ == locales_with_prefix(self@, prefix@),
    {
        let sorted = sort_files_by_locale(self.workspace.fluent_files());
        let ghost sv = files_view(sorted@);
        let ghost f = |x: FileModel| locale_call(stem_text(x.path), prefix@, relative_to_target(self@, x.path));
        let mut out = String::new();
        let n = sorted.len();
        let mut i: usize = 0;
        assert(out@ =~= concat_texts(sv.take(0), f));
        while i < n
            invariant
                n == sorted.len(),
                i <= n,
                sv == files_view(sorted@),
                f == (|x: FileModel| locale_call(stem_text(x.path), prefix@, relative_to_target(self@, x.path))),
                out@ == concat_texts(sv.take(i as int), f),
            decreases n - i,
        {
            let ghost before = out@;
            assert(sv.take(i + 1).drop_last() =~= sv.take(i as int));
            assert(sv.take(i + 1).last() == sorted@[i as int]@);
            let path = sorted[i].path();
            let stem = match path_file_stem(path.as_str()) {
                Some(s) => s,
                None => String::new(),
            };
            let rel = self.relative(path.as_str());
            out.append("        .with_locale((\n            langid!(\"");
            out.append(stem.as_str());
            out.append("\"),\n            ");
            out.append(prefix);
            out.append("(\"");
            out.append(rel.as_str());
            out.append("\")\n        ))\n");
            assert(out@ =~= before + f(sorted@[i as int]@));
            i += 1;
        }
        assert(sv.take(n as int) =~= sv);
        out
    }

    /// A `with_auto_locales` call for each Fluent source that is a folder.
    fn auto_locales(&self) -> (res: String)
        ensures
            res@ == auto_locales_text(self@),
    {
        let sources = &self.settings.lingora.fluent_sources;
        let ghost idx = Seq::new(self@.settings.fluent_sources.len(), |k: int| k);
        let ghost f = |k: int| if k < self@.source_is_dir.len() && self@.source_is_dir[k] {
            "        .with_auto_locales(PathBuf::from(\""@ + relative_to_target(self@, self@.settings.fluent_sources[k]) + "\"))\n"@
        } else {
            Seq::<char>::empty()
        };
        let mut out = String::new();
        let n = sources.len();
        let mut i: usize = 0;
        assert(out@ =~= concat_texts(idx.take(0), f));
        while i < n
            invariant
                n == self.settings.lingora.fluent_sources.len(),
                n == self@.settings.fluent_sources.len(),
                i <= n,
                idx == Seq::new(self@.settings.fluent_sources.len(), |k: int| k),
                f == (|k: int| if k < self@.source_is_dir.len() && self@.source_is_dir[k] {
                    "        .with_auto_locales(PathBuf::from(\""@ + relative_to_target(self@, self@.settings.fluent_sources[k]) + "\"))\n"@
                } else {
                    Seq::<char>::empty()
                }),
                out@ == concat_texts(idx.take(i as int), f),
            decreases n - i,
        {
            let ghost before = out@;
            assert(idx.take(i + 1).drop_last() =~= idx.take(i as int));
            assert(idx.take(i + 1).last() == i as int);
            assert(self@.settings.fluent_sources[i as int] == self.settings.lingora.fluent_sources@[i as int]@);
            if i < self.source_is_dir.len() && self.source_is_dir[i] {
                let rel = self.relative(self.settings.lingora.fluent_sources[i].as_str());
                out.append("        .with_auto_locales(PathBuf::from(\"");
                out.append(rel.as_str());
                out.append("\"))\n");
                assert(out@ =~= before + f(i as int));
            } else {
                assert(out@ =~= before + f(i as int));
            }
            i += 1;
        }
        assert(idx.take(n as int) =~= idx);
        out
    }

    /// The locale calls of the inclusion style.
    fn locales(&self) -> (res: String)
        ensures
            res@ == locales_text(self@),
    {
        match self.settings.dioxus_i18n.config_inclusion {
            ConfigInclusionStyle::IncludeStr => self.locales_using_prefix("include_str!"),
            ConfigInclusionStyle::PathBuf => self.locales_using_prefix("PathBuf::from"),
            ConfigInclusionStyle::Auto => self.auto_locales(),
        }
    }

    /// A `with_locale` call under its language root for each shared file, in
/// file order.
    fn shares_using_prefix(&self, prefix: &str) -> (res: String)
        ensures
            res@ == shares_with_prefix(self@, prefix@),
    {
        let files = self.workspace.fluent_files();
        let bases = self.workspace.base_locales();
        let ghost fv = files_view(files@);
        let ghost f = |x: FileModel| if is_shared(self@.workspace, x.locale) {
            "        .with_locale(langid!(\""@ + root_text(root_of(x.locale)) + "\"), "@ + prefix@ + "(\""@
                + relative_to_target(self@, x.path) + "\"))\n"@
        } else {
            Seq::<char>::empty()
        };
        let mut out = String::new();
        let n = files.len();
        let mut i: usize = 0;
        assert(out@ =~= concat_texts(fv.take(0), f));
        while i < n
            invariant
                n == files.len(),
                i <= n,
                fv == files_view(files@),
                crate::locale::locales_view(bases@) == self@.workspace.primaries.push(self@.workspace.canonical),
                f == (|x: FileModel| if is_shared(self@.workspace, x.locale) {
                    "        .with_locale(langid!(\""@ + root_text(root_of(x.locale)) + "\"), "@ + prefix@ + "(\""@
                        + relative_to_target(self@, x.path) + "\"))\n"@
                } else {
                    Seq::<char>::empty()
                }),
                out@ == concat_texts(fv.take(i as int), f),
            decreases n - i,
        {
            let ghost before = out@;
            assert(fv.take(i + 1).drop_last() =~= fv.take(i as int));
            assert(fv.take(i + 1).last() == files@[i as int]@);
            let locale = files[i].locale();
            let root_only = locale.region().is_none() && !locale.has_variants();
            if contains_locale(&bases, locale) && !root_only {
                let root = locale.language_root().to_text();
                let rel = self.relative(files[i].path().as_str());
                out.append("        .with_locale(langid!(\"");
                out.append(root.as_str());
                out.append("\"), ");
                out.append(prefix);
                out.append("(\"");
                out.append(rel.as_str());
                out.append("\"))\n");
                assert(out@ =~= before + f(files@[i as int]@));
            } else {
                assert(out@ =~= before + f(files@[i as int]@));
            }
            i += 1;
        }
        assert(fv.take(n as int) =~= fv);
        out
    }

    /// The calls for the shared files, in the inclusion style.
    fn shares(&self) -> (res: String)
        ensures
            res@ == shares_text(self@),
    {
        match self.settings.dioxus_i18n.config_inclusion {
            ConfigInclusionStyle::IncludeStr => self.shares_using_prefix("include_str!"),
            _ => self.shares_using_prefix("PathBuf::from"),
        }
    }

    /// The fallback call.
    fn fallback(&self) -> (res: String)
        ensures
            res@ == fallback_text(self@),
    {
        let text = self.settings.lingora.canonical.to_text();
        let mut out = String::from_str("        .with_fallback(langid!(\"");
        out.append(text.as_str());
        out.append("\"))\n");
        out
    }

    /// The generated code.
    pub fn render(&self) -> (res: String)
        ensures
            res@ == config_code(self@),
    {
        let template = "use dioxus_i18n::{prelude::*, *};\nuse unic_langid::{langid, LanguageIdentifier};\n/*** INCLUDE ***/\n\npub fn config(initial_language: LanguageIdentifier) -> I18nConfig {\n    I18nConfig::new(initial_language)\n/*** LOCALES ***//*** SHARES ***//*** FALLBACK ***/}\n";
        proof {
            reveal_strlit("/*** INCLUDE ***/");
            reveal_strlit("/*** LOCALES ***/");
            reveal_strlit("/*** SHARES ***/");
            reveal_strlit("/*** FALLBACK ***/");
        }
        let a = replace_text(template, "/*** INCLUDE ***/", self.import_line().as_str());
        let b = replace_text(a.as_str(), "/*** LOCALES ***/", self.locales().as_str());
        let c = replace_text(b.as_str(), "/*** SHARES ***/", self.shares().as_str());
        replace_text(c.as_str(), "/*** FALLBACK ***/", self.fallback().as_str())
    }
}

/// The files sorted in the order of locales, files of equal locales in
/// their order.
fn sort_files_by_locale(files: &Vec<FluentFile>) -> (res: Vec<FluentFile>)
    ensures
        files_view(res@) == insertion_sorted(files_view(files@), file_locale_after()),
{
    let ghost fv = files_view(files@);
    let mut res: Vec<FluentFile> = Vec::new();
    let n = files.len();
    let mut i: usize = 0;
    assert(files_view(res@) =~= insertion_sorted(fv.take(0), file_locale_after()));
    while i < n
        invariant
            n == files.len(),
            i <= n,
            fv == files_view(files@),
            files_view(res@) == insertion_sorted(fv.take(i as int), file_locale_after()),
        decreases n - i,
    {
        let ghost s = files_view(res@);
        let x = files[i].copy();
        assert(fv.take(i + 1).drop_last() =~= fv.take(i as int));
        assert(fv.take(i + 1).last() == x@);
        let m = res.len();
        let mut p: usize = 0;
        while p < m
            invariant
                m == res.len(),
                s == files_view(res@),
                p <= m,
                forall|j: int| 0 <= j < p ==> !(file_locale_after())(#[trigger] s[j], x@),
            ensures
                p <= m,
                forall|j: int| 0 <= j < p ==> !(file_locale_after())(#[trigger] s[j], x@),
                p < m ==> (file_locale_after())(s[p as int], x@),
            decreases m - p,
        {
            if res[p].locale().compare(x.locale()) > 0 {
                break;
            }
            p += 1;
        }
        proof { lemma_insert_before_at(s, x@, file_locale_after(), p as int); }
        let ghost xv = x@;
        res.insert(p, x);
        assert(files_view(res@) =~= s.take(p as int) + seq![xv] + s.skip(p as int));
        i += 1;
    }
    assert(fv.take(n as int) =~= fv);
    res
}

} // verus!
