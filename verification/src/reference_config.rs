//! Generation of `dioxus_i18n` configuration code from the settings of the
//! single-reference analysis: one locale per reference or target file,
//! shares between locales, and a fallback.
use vstd::prelude::*;
use crate::assoc::{has_key, keys_unique, lemma_key_pos, lemma_upsert, lookup, upsert};
use crate::dioxus::{absolute_of, common_prefix_len, component_string, component_text, locale_call, path_of_parts, path_from_parts, stem_text, absolute_path};
use crate::integrity::WithLocale;
use crate::locale::{locale_of_path, locale_text, Locale, LocaleModel};
use crate::order::{compare_option_text, option_order};
use crate::paths::{components_of, components_view, file_name_of, opt_text, path_components, path_file_name, path_file_stem, ComponentModel};
use crate::settings::Settings;
use crate::sorting::{insertion_sorted, lemma_insert_before_at};
use crate::text::{concat_texts, replace_all, replace_text, views};

verus! {

/// The text of `std::path::Path::parent` of a path, where it has one.
pub uninterp spec fn parent_of(path: Seq<char>) -> Option<Seq<char>>;

/// `std::path::Path::parent` of `path`, as text. The contract names the
/// result `parent_of(path)`.
#[verifier::external_body]
fn path_parent(path: &str) -> (res: Option<String>)
    ensures
        opt_text(res) == parent_of(path@),
{
    std::path::Path::new(path).parent().map(|p| p.to_string_lossy().to_string())
}

/// What the generated code is made from.
pub struct ReferenceConfigModel {
    pub root: Seq<char>,
    pub reference: Seq<char>,
    pub with_locale: WithLocale,
    pub shares: Seq<(LocaleModel, LocaleModel)>,
    pub fallback: LocaleModel,
    pub targets: Seq<Seq<char>>,
    pub base_path: Seq<char>,
    pub current_dir: Seq<char>,
}

/// The views of pairs of locales.
pub open spec fn locale_pairs_view(s: Seq<(Locale, Locale)>) -> Seq<(LocaleModel, LocaleModel)> {
    s.map_values(|p: (Locale, Locale)| (p.0@, p.1@))
}

/// The folder the paths in the code are relative to: the parent of the
/// base path made absolute.
pub open spec fn base_dir(m: ReferenceConfigModel) -> Seq<char> {
    parent_of(absolute_of(m.base_path, m.current_dir))->Some_0
}

/// The number of leading components two paths share, a shared root folder
/// left uncounted.
pub open spec fn shared_prefix_len(a: Seq<ComponentModel>, b: Seq<ComponentModel>) -> nat {
    if a.len() > 0 && b.len() > 0 && a[0] == ComponentModel::RootDir && b[0] == ComponentModel::RootDir {
        common_prefix_len(a.drop_first(), b.drop_first())
    } else {
        common_prefix_len(a, b)
    }
}

/// A path written for the code: `to` as given when it shares nothing with
/// `from_dir`, else its absolute components from the shared count on.
pub open spec fn relative_between(from_dir: Seq<char>, to: Seq<char>, cwd: Seq<char>) -> Seq<char> {
    let fc = components_of(from_dir);
    let tc = components_of(absolute_of(to, cwd));
    let k = shared_prefix_len(fc, tc);
    if k == 0 {
        to
    } else {
        path_of_parts(tc.skip(k as int).map_values(|c: ComponentModel| component_text(c)))
    }
}

/// A path written for the code, relative to the base folder.
pub open spec fn relative_to_base(m: ReferenceConfigModel, to: Seq<char>) -> Seq<char> {
    relative_between(base_dir(m), to, m.current_dir)
}

/// The target files, then the reference file.
pub open spec fn all_files(m: ReferenceConfigModel) -> Seq<Seq<char>> {
    m.targets.push(m.reference)
}

/// One path sorts after another when its final component does.
pub open spec fn file_name_after() -> spec_fn(Seq<char>, Seq<char>) -> bool {
    |y: Seq<char>, x: Seq<char>| option_order(file_name_of(y), file_name_of(x)) > 0
}

/// The `with_locale` call of one file.
pub open spec fn file_locale_text(m: ReferenceConfigModel, prefix: Seq<char>) -> spec_fn(Seq<char>) -> Seq<char> {
    |p: Seq<char>| locale_call(stem_text(p), prefix, relative_to_base(m, p))
}

/// A `with_locale` call for each file, in the order of their names.
pub open spec fn file_locales_text(m: ReferenceConfigModel, prefix: Seq<char>) -> Seq<char> {
    concat_texts(insertion_sorted(all_files(m), file_name_after()), file_locale_text(m, prefix))
}

/// The `with_auto_locales` call for the root folder.
pub open spec fn root_locales_text(m: ReferenceConfigModel) -> Seq<char> {
    "        .with_auto_locales(PathBuf::from(\""@ + relative_to_base(m, m.root) + "\"))\n"@
}

/// The files by the locale their paths give; of several files of one
/// locale, the last.
pub open spec fn files_by_locale(files: Seq<Seq<char>>) -> Seq<(LocaleModel, Seq<char>)>
    decreases files.len(),
{
    if files.len() == 0 {
        Seq::empty()
    } else {
        let rest = files_by_locale(files.drop_last());
        match locale_of_path(files.last()) {
            Some(l) => upsert(rest, l, files.last()),
            None => rest,
        }
    }
}

/// The file of the target locale of a share.
pub open spec fn share_file(m: ReferenceConfigModel, target: LocaleModel) -> Seq<char> {
    lookup(files_by_locale(all_files(m)), target)->Some_0
}

/// The `with_locale` call of one share: the source locale with the file of
/// the target locale.
pub open spec fn share_text(m: ReferenceConfigModel, prefix: Seq<char>) -> spec_fn((LocaleModel, LocaleModel)) -> Seq<char> {
    |s: (LocaleModel, LocaleModel)| locale_call(locale_text(s.0), prefix, relative_to_base(m, share_file(m, s.1)))
}

/// The import the code needs.
pub open spec fn reference_import_text(m: ReferenceConfigModel) -> Seq<char> {
    match m.with_locale {
        WithLocale::IncludeStr => Seq::empty(),
        _ => "use std::path::PathBuf;"@,
    }
}

/// The locale calls of the loading method.
pub open spec fn reference_locales_text(m: ReferenceConfigModel) -> Seq<char> {
    match m.with_locale {
        WithLocale::IncludeStr => file_locales_text(m, "include_str!"@),
        WithLocale::PathBuf => file_locales_text(m, "PathBuf::from"@),
        WithLocale::Auto => root_locales_text(m),
    }
}

/// The share calls of the loading method.
pub open spec fn reference_shares_text(m: ReferenceConfigModel) -> Seq<char> {
    match m.with_locale {
        WithLocale::IncludeStr => concat_texts(m.shares, share_text(m, "include_str!"@)),
        _ => concat_texts(m.shares, share_text(m, "PathBuf::from"@)),
    }
}

/// The fallback call.
pub open spec fn reference_fallback_text(m: ReferenceConfigModel) -> Seq<char> {
    "        .with_fallback(langid!(\""@ + locale_text(m.fallback) + "\"))\n"@
}

/// The generated code: the template with its placeholders filled in.
pub open spec fn reference_config_code(m: ReferenceConfigModel) -> Seq<char> {
    replace_all(
        replace_all(
            replace_all(
                replace_all(crate::dioxus::config_template(), "/*** INCLUDE ***/"@, reference_import_text(m)),
                "/*** LOCALES ***/"@,
                reference_locales_text(m),
            ),
            "/*** SHARES ***/"@,
            reference_shares_text(m),
        ),
        "/*** FALLBACK ***/"@,
        reference_fallback_text(m),
    )
}

/// Whether the code can be made: the absolute base path has a parent, and
/// the target locale of every share has a file.
pub open spec fn renderable(m: ReferenceConfigModel) -> bool {
    &&& parent_of(absolute_of(m.base_path, m.current_dir)) is Some
    &&& forall|i: int| 0 <= i < m.shares.len() ==> has_key(files_by_locale(all_files(m)), #[trigger] m.shares[i].1)
}

/// Generates `dioxus_i18n` configuration code from the settings and their
/// target files.
pub struct DioxusI18nConfigRenderer {
    settings: Settings,
    targets: Vec<String>,
    base_path: String,
    current_dir: String,
}

impl View for DioxusI18nConfigRenderer {
    type V = ReferenceConfigModel;

    closed spec fn view(&self) -> ReferenceConfigModel {
        ReferenceConfigModel {
            root: self.settings.root@,
            reference: self.settings.reference@,
            with_locale: self.settings.with_locale,
            shares: locale_pairs_view(self.settings.shares@),
            fallback: self.settings.fallback@,
            targets: views(self.targets@),
            base_path: self.base_path@,
            current_dir: self.current_dir@,
        }
    }
}

/// The path of `to` written for the code, from the folder `from_dir`.
fn relative_from(from_dir: &str, to: &str, cwd: &str) -> (res: String)
    ensures
        res@ == relative_between(from_dir@, to@, cwd@),
{
    let to_abs = absolute_path(to, cwd);
    let fc = path_components(from_dir);
    let tc = path_components(to_abs.as_str());
    let ghost fv = components_view(fc@);
    let ghost tv = components_view(tc@);
    let n = fc.len();
    let m = tc.len();
    let mut k: usize = 0;
    let mut start: usize = 0;
    if n > 0 && m > 0 {
        let both_root = match (&fc[0], &tc[0]) {
            (crate::paths::PathComponent::RootDir, crate::paths::PathComponent::RootDir) => true,
            _ => false,
        };
        assert(fv[0] == fc@[0]@);
        assert(tv[0] == tc@[0]@);
        if both_root {
            start = 1;
        }
    }
    assert(fv.skip(start as int) == if start == 1 { fv.drop_first() } else { fv });
    assert(tv.skip(start as int) == if start == 1 { tv.drop_first() } else { tv });
    let mut q: usize = start;
    assert(fv.skip(start as int).skip(0) =~= fv.skip(start as int));
    while q < n && q < m && fc[q].same_as(&tc[q])
        invariant
            n == fc.len(),
            m == tc.len(),
            fv == components_view(fc@),
            tv == components_view(tc@),
            start <= q,
            q <= n,
            q <= m,
            k == q - start,
            common_prefix_len(fv.skip(start as int), tv.skip(start as int)) == k + common_prefix_len(
                fv.skip(q as int),
                tv.skip(q as int),
            ),
        decreases n - q,
    {
        assert(fv.skip(q as int)[0] == fc@[q as int]@);
        assert(tv.skip(q as int)[0] == tc@[q as int]@);
        assert(fv.skip(q as int).drop_first() =~= fv.skip(q + 1));
        assert(tv.skip(q as int).drop_first() =~= tv.skip(q + 1));
        q += 1;
        k += 1;
    }
    assert(common_prefix_len(fv.skip(q as int), tv.skip(q as int)) == 0) by {
        if q < n && q < m {
            assert(fv.skip(q as int)[0] == fc@[q as int]@);
            assert(tv.skip(q as int)[0] == tc@[q as int]@);
        }
    }
    assert(fv.skip(start as int) =~= if start == 1 { fv.drop_first() } else { fv });
    assert(tv.skip(start as int) =~= if start == 1 { tv.drop_first() } else { tv });
    assert(k == shared_prefix_len(fv, tv));
    if k == 0 {
        return String::from_str(to);
    }
    let mut parts: Vec<String> = Vec::new();
    let mut r: usize = k;
    while r < m
        invariant
            m == tc.len(),
            tv == components_view(tc@),
            k <= r <= m,
            parts.len() == r - k,
            forall|j: int| 0 <= j < r - k ==> (#[trigger] parts@[j])@ == component_text(tc@[j + k]@),
        decreases m - r,
    {
        parts.push(component_string(&tc[r]));
        r += 1;
    }
    assert(views(parts@) =~= tv.skip(k as int).map_values(|c: ComponentModel| component_text(c)));
    path_from_parts(&parts)
}

/// The files sorted by their final components; files with equal names
/// keep their order.
fn sort_by_file_name(files: &Vec<String>) -> (res: Vec<String>)
    ensures
        views(res@) == insertion_sorted(views(files@), file_name_after()),
{
    let ghost pv = views(files@);
    let mut res: Vec<String> = Vec::new();
    let n = files.len();
    let mut i: usize = 0;
    assert(views(res@) =~= insertion_sorted(pv.take(0), file_name_after()));
    while i < n
        invariant
            n == files.len(),
            i <= n,
            pv == views(files@),
            views(res@) == insertion_sorted(pv.take(i as int), file_name_after()),
        decreases n - i,
    {
        assert(pv.take(i + 1).drop_last() =~= pv.take(i as int));
        assert(pv.take(i + 1).last() == files@[i as int]@);
        let x = files[i].clone();
        let xname = path_file_name(x.as_str());
        let ghost s = views(res@);
        let m = res.len();
        let mut p: usize = 0;
        while p < m
            invariant
                m == res.len(),
                s == views(res@),
                p <= m,
                opt_text(xname) == file_name_of(x@),
                forall|j: int| 0 <= j < p ==> !(file_name_after())(#[trigger] s[j], x@),
            ensures
                p <= m,
                forall|j: int| 0 <= j < p ==> !(file_name_after())(#[trigger] s[j], x@),
                p < m ==> (file_name_after())(s[p as int], x@),
            decreases m - p,
        {
            let name = path_file_name(res[p].as_str());
            assert(s[p as int] == res@[p as int]@);
            if compare_option_text(&name, &xname) > 0 {
                break;
            }
            p += 1;
        }
        proof {
            lemma_insert_before_at(s, x@, file_name_after(), p as int);
        }
        let ghost xv = x@;
        res.insert(p, x);
        assert(views(res@) =~= s.take(p as int) + seq![xv] + s.skip(p as int));
        i += 1;
    }
    assert(pv.take(n as int) =~= pv);
    res
}

/// The files by locale, as views.
pub open spec fn located_view(s: Seq<(Locale, String)>) -> Seq<(LocaleModel, Seq<char>)> {
    s.map_values(|e: (Locale, String)| (e.0@, e.1@))
}

/// The files by the locale their paths give.
fn locate_files(files: &Vec<String>) -> (res: Vec<(Locale, String)>)
    ensures
        located_view(res@) == files_by_locale(views(files@)),
        keys_unique(located_view(res@)),
{
    let ghost fv = views(files@);
    let mut res: Vec<(Locale, String)> = Vec::new();
    let n = files.len();
    let mut i: usize = 0;
    assert(located_view(res@) =~= files_by_locale(fv.take(0)));
    while i < n
        invariant
            n == files.len(),
            i <= n,
            fv == views(files@),
            located_view(res@) == files_by_locale(fv.take(i as int)),
            keys_unique(located_view(res@)),
        decreases n - i,
    {
        let ghost before = located_view(res@);
        assert(fv.take(i + 1).drop_last() =~= fv.take(i as int));
        assert(fv.take(i + 1).last() == files@[i as int]@);
        match Locale::try_from_path(files[i].as_str()) {
            Ok(l) => {
                let ghost lv = l@;
                let ghost pv = files@[i as int]@;
                proof {
                    lemma_upsert(before, lv, pv);
                }
                let m = res.len();
                let mut k: usize = 0;
                while k < m
                    invariant
                        m == res.len(),
                        k <= m,
                        before == located_view(res@),
                        lv == l@,
                        forall|j: int| 0 <= j < k ==> (#[trigger] res@[j]).0@ != lv,
                    ensures
                        k <= m,
                        forall|j: int| 0 <= j < k ==> (#[trigger] res@[j]).0@ != lv,
                        k < m ==> res@[k as int].0@ == lv,
                    decreases m - k,
                {
                    if res[k].0.same_as(&l) {
                        break;
                    }
                    k += 1;
                }
                let path = files[i].clone();
                if k < m {
                    assert(before[k as int].0 == lv);
                    proof {
                        lemma_key_pos(before, lv, k as int);
                    }
                    res.set(k, (l, path));
                    assert(located_view(res@) =~= upsert(before, lv, pv));
                } else {
                    assert forall|j: int| 0 <= j < before.len() implies before[j].0 != lv by {
                        assert(before[j].0 == res@[j].0@);
                    }
                    assert(!has_key(before, lv));
                    res.push((l, path));
                    assert(located_view(res@) =~= upsert(before, lv, pv));
                }
            },
            Err(_) => {},
        }
        i += 1;
    }
    assert(fv.take(n as int) =~= fv);
    res
}

/// The file of `target` among the located files, where there is one.
fn find_located(located: &Vec<(Locale, String)>, target: &Locale) -> (res: Option<String>)
    requires
        keys_unique(located_view(located@)),
    ensures
        opt_text(res) == lookup(located_view(located@), target@),
{
    let ghost lv = located_view(located@);
    let n = located.len();
    let mut k: usize = 0;
    while k < n
        invariant
            n == located.len(),
            k <= n,
            lv == located_view(located@),
            keys_unique(lv),
            forall|j: int| 0 <= j < k ==> (#[trigger] lv[j]).0 != target@,
        decreases n - k,
    {
        assert(lv[k as int] == (located@[k as int].0@, located@[k as int].1@));
        if located[k].0.same_as(target) {
            proof {
                lemma_key_pos(lv, target@, k as int);
            }
            return Some(located[k].1.clone());
        }
        k += 1;
    }
    assert(!has_key(lv, target@));
    None
}

impl DioxusI18nConfigRenderer {
    /// The renderer of the settings with their target files; paths in the
    /// code are written from the parent of `base_path` (the empty path when
    /// none is given), made absolute against `current_dir`.
    pub fn new(settings: Settings, targets: Vec<String>, base_path: Option<&str>, current_dir: &str) -> (res: DioxusI18nConfigRenderer)
        ensures
            res@ == (ReferenceConfigModel {
                root: settings.root@,
                reference: settings.reference@,
                with_locale: settings.with_locale,
                shares: locale_pairs_view(settings.shares@),
                fallback: settings.fallback@,
                targets: views(targets@),
                base_path: match base_path {
                    Some(p) => p@,
                    None => Seq::empty(),
                },
                current_dir: current_dir@,
            }),
    {
        let base = match base_path {
            Some(p) => String::from_str(p),
            None => String::new(),
        };
        DioxusI18nConfigRenderer { settings, targets, base_path: base, current_dir: String::from_str(current_dir) }
    }

    /// The target files, then the reference file.
    fn files(&self) -> (res: Vec<String>)
        ensures
            views(res@) == all_files(self@),
    {
        let mut files = crate::config::copy_strings(&self.targets);
        let ghost before = views(files@);
        files.push(self.settings.reference.clone());
        assert(views(files@) =~= before.push(self.settings.reference@));
        files
    }

    /// The base folder, where the absolute base path has a parent.
    fn base_folder(&self) -> (res: Option<String>)
        ensures
            opt_text(res) == parent_of(absolute_of(self@.base_path, self@.current_dir)),
    {
        let abs = absolute_path(self.base_path.as_str(), self.current_dir.as_str());
        path_parent(abs.as_str())
    }

    /// A `with_locale` call for each file, in the order of their names.
    fn file_locales(&self, base: &str, prefix: &str) -> (res: String)
        requires
            base@ == base_dir(self@),
        ensures
            res@ == file_locales_text(self@, prefix@),
    {
        let sorted = sort_by_file_name(&self.files());
        let ghost sv = views(sorted@);
        let ghost f = file_locale_text(self@, prefix@);
        let mut out = String::new();
        let n = sorted.len();
        let mut i: usize = 0;
        assert(out@ =~= concat_texts(sv.take(0), f));
        while i < n
            invariant
                n == sorted.len(),
                i <= n,
                sv == views(sorted@),
                base@ == base_dir(self@),
                f == file_locale_text(self@, prefix@),
                out@ == concat_texts(sv.take(i as int), f),
            decreases n - i,
        {
            let ghost before = out@;
            assert(sv.take(i + 1).drop_last() =~= sv.take(i as int));
            assert(sv.take(i + 1).last() == sorted@[i as int]@);
            let path = sorted[i].as_str();
            let stem = match path_file_stem(path) {
                Some(s) => s,
                None => String::new(),
            };
            let rel = relative_from(base, path, self.current_dir.as_str());
            out.append("        .with_locale((\n            langid!(\"");
            out.append(stem.as_str());
            out.append("\"),\n            ");
            out.append(prefix);
            out.append("(\"");
            out.append(rel.as_str());
            out.append("\")\n        ))\n");
            proof {
                reveal_strlit("        .with_locale((\n            langid!(\"");
                reveal_strlit("\"),\n            ");
                reveal_strlit("(\"");
                reveal_strlit("\")\n        ))\n");
            }
            assert(out@ =~= before + f(sorted@[i as int]@));
            i += 1;
        }
        assert(sv.take(n as int) =~= sv);
        out
    }

    /// The `with_locale` calls of the shares, in their order.
    fn share_locales(&self, base: &str, prefix: &str) -> (res: String)
        requires
            base@ == base_dir(self@),
            forall|i: int| 0 <= i < self@.shares.len() ==> has_key(files_by_locale(all_files(self@)), #[trigger] self@.shares[i].1),
        ensures
            res@ == concat_texts(self@.shares, share_text(self@, prefix@)),
    {
        let located = locate_files(&self.files());
        let shares = &self.settings.shares;
        let ghost sv = self@.shares;
        let ghost f = share_text(self@, prefix@);
        let mut out = String::new();
        let n = shares.len();
        let mut i: usize = 0;
        assert(out@ =~= concat_texts(sv.take(0), f));
        while i < n
            invariant
                n == shares.len(),
                shares == &self.settings.shares,
                i <= n,
                sv == self@.shares,
                sv == locale_pairs_view(shares@),
                base@ == base_dir(self@),
                located_view(located@) == files_by_locale(all_files(self@)),
                keys_unique(located_view(located@)),
                forall|j: int| 0 <= j < sv.len() ==> has_key(files_by_locale(all_files(self@)), #[trigger] sv[j].1),
                f == share_text(self@, prefix@),
                out@ == concat_texts(sv.take(i as int), f),
            decreases n - i,
        {
            let ghost before = out@;
            assert(sv[i as int] == (shares@[i as int].0@, shares@[i as int].1@));
            assert(sv.take(i + 1).drop_last() =~= sv.take(i as int));
            assert(sv.take(i + 1).last() == sv[i as int]);
            assert(has_key(files_by_locale(all_files(self@)), sv[i as int].1));
            let file = match find_located(&located, &shares[i].1) {
                Some(f) => f,
                None => String::new(),
            };
            assert(file@ == share_file(self@, sv[i as int].1));
            let source = shares[i].0.to_text();
            let rel = relative_from(base, file.as_str(), self.current_dir.as_str());
            out.append("        .with_locale((\n            langid!(\"");
            out.append(source.as_str());
            out.append("\"),\n            ");
            out.append(prefix);
            out.append("(\"");
            out.append(rel.as_str());
            out.append("\")\n        ))\n");
            proof {
                reveal_strlit("        .with_locale((\n            langid!(\"");
                reveal_strlit("\"),\n            ");
                reveal_strlit("(\"");
                reveal_strlit("\")\n        ))\n");
            }
            assert(out@ =~= before + f(sv[i as int]));
            i += 1;
        }
        assert(sv.take(n as int) =~= sv);
        out
    }

    /// Whether the code can be made.
    pub fn is_renderable(&self) -> (res: bool)
        ensures
            res == renderable(self@),
    {
        if self.base_folder().is_none() {
            return false;
        }
        let located = locate_files(&self.files());
        let shares = &self.settings.shares;
        let ghost sv = self@.shares;
        let n = shares.len();
        let mut i: usize = 0;
        while i < n
            invariant
                n == shares.len(),
                shares == &self.settings.shares,
                i <= n,
                sv == self@.shares,
                sv == locale_pairs_view(shares@),
                located_view(located@) == files_by_locale(all_files(self@)),
                keys_unique(located_view(located@)),
                forall|j: int| 0 <= j < i ==> has_key(files_by_locale(all_files(self@)), #[trigger] sv[j].1),
            decreases n - i,
        {
            assert(sv[i as int] == (shares@[i as int].0@, shares@[i as int].1@));
            if find_located(&located, &shares[i].1).is_none() {
                assert(!has_key(files_by_locale(all_files(self@)), sv[i as int].1));
                return false;
            }
            i += 1;
        }
        true
    }

    /// The generated code. The absolute base path must have a parent, and
    /// the target locale of every share a file.
    pub fn render(&self) -> (res: String)
        requires
            renderable(self@),
        ensures
            res@ == reference_config_code(self@),
    {
        let base = match self.base_folder() {
            Some(b) => b,
            None => String::new(),
        };
        let import = match self.settings.with_locale {
            WithLocale::IncludeStr => String::new(),
            _ => String::from_str("use std::path::PathBuf;"),
        };
        proof {
            reveal_strlit("use std::path::PathBuf;");
        }
        let locales = match self.settings.with_locale {
            WithLocale::IncludeStr => self.file_locales(base.as_str(), "include_str!"),
            WithLocale::PathBuf => self.file_locales(base.as_str(), "PathBuf::from"),
            WithLocale::Auto => {
                let rel = relative_from(base.as_str(), self.settings.root.as_str(), self.current_dir.as_str());
                let mut out = String::from_str("        .with_auto_locales(PathBuf::from(\"");
                out.append(rel.as_str());
                out.append("\"))\n");
                proof {
                    reveal_strlit("        .with_auto_locales(PathBuf::from(\"");
                    reveal_strlit("\"))\n");
                }
                out
            },
        };
        proof {
            reveal_strlit("include_str!");
            reveal_strlit("PathBuf::from");
        }
        let shares = match self.settings.with_locale {
            WithLocale::IncludeStr => self.share_locales(base.as_str(), "include_str!"),
            _ => self.share_locales(base.as_str(), "PathBuf::from"),
        };
        let fallback_locale = self.settings.fallback.to_text();
        let mut fallback = String::from_str("        .with_fallback(langid!(\"");
        fallback.append(fallback_locale.as_str());
        fallback.append("\"))\n");
        proof {
            reveal_strlit("        .with_fallback(langid!(\"");
            reveal_strlit("\"))\n");
        }
        let template = "use dioxus_i18n::{prelude::*, *};\nuse unic_langid::{langid, LanguageIdentifier};\n/*** INCLUDE ***/\n\npub fn config(initial_language: LanguageIdentifier) -> I18nConfig {\n    I18nConfig::new(initial_language)\n/*** LOCALES ***//*** SHARES ***//*** FALLBACK ***/}\n";
        proof {
            reveal_strlit("/*** INCLUDE ***/");
            reveal_strlit("/*** LOCALES ***/");
            reveal_strlit("/*** SHARES ***/");
            reveal_strlit("/*** FALLBACK ***/");
            reveal_strlit("use dioxus_i18n::{prelude::*, *};\nuse unic_langid::{langid, LanguageIdentifier};\n/*** INCLUDE ***/\n\npub fn config(initial_language: LanguageIdentifier) -> I18nConfig {\n    I18nConfig::new(initial_language)\n/*** LOCALES ***//*** SHARES ***//*** FALLBACK ***/}\n");
        }
        assert(template@ == crate::dioxus::config_template());
        let a = replace_text(template, "/*** INCLUDE ***/", import.as_str());
        let b = replace_text(a.as_str(), "/*** LOCALES ***/", locales.as_str());
        let c = replace_text(b.as_str(), "/*** SHARES ***/", shares.as_str());
        replace_text(c.as_str(), "/*** FALLBACK ***/", fallback.as_str())
    }

    /// The generated code, or `None` when the absolute base path has no
    /// parent or the target locale of a share has no file.
    pub fn try_render(&self) -> (res: Option<String>)
        ensures
            match res {
                Some(code) => renderable(self@) && code@ == reference_config_code(self@),
                None => !renderable(self@),
            },
    {
        if self.is_renderable() {
            Some(self.render())
        } else {
            None
        }
    }
}

} // verus!
