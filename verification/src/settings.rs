//! The settings of the single-reference analysis: the entries of its
//! configuration table, the defaults of the missing ones, and the choice of
//! the reference file among the target files.
use vstd::prelude::*;
use crate::error::{ErrorModel, LingoraError};
use crate::paths::{file_name_of, path_file_name, path_order, compare_paths, same_path, paths_equal};
use crate::sorting::{insert_before, insertion_sorted, lemma_insert_before_at};
use crate::text::{join, views, join_strings, concat2};

verus! {

/// The name of the reference file of a locale: the locale with the `ftl`
/// extension.
pub open spec fn reference_file_name(locale: Seq<char>) -> Seq<char> {
    locale + ".ftl"@
}

/// The files whose final component is that of the reference file name, in
/// their order.
pub open spec fn reference_candidates(files: Seq<Seq<char>>, locale: Seq<char>) -> Seq<Seq<char>>
    decreases files.len(),
{
    if files.len() == 0 {
        Seq::empty()
    } else {
        let rest = reference_candidates(files.drop_last(), locale);
        if file_name_of(files.last()) == file_name_of(reference_file_name(locale)) {
            rest.push(files.last())
        } else {
            rest
        }
    }
}

/// One path sorts after another when its components do.
pub open spec fn text_path_after() -> spec_fn(Seq<char>, Seq<char>) -> bool {
    |y: Seq<char>, x: Seq<char>| path_order(y, x) > 0
}

/// The reference file chosen among `files` for `locale`: the one file named
/// after the locale; an error naming the file when there is none, and one
/// listing the candidates in path order when there are several.
pub open spec fn reference_choice(files: Seq<Seq<char>>, locale: Seq<char>) -> Result<Seq<char>, ErrorModel> {
    let found = insertion_sorted(reference_candidates(files, locale), text_path_after());
    if found.len() == 0 {
        Err(ErrorModel::CannotFindReferenceFile(reference_file_name(locale)))
    } else if found.len() == 1 {
        Ok(found[0])
    } else {
        Err(ErrorModel::AmbiguousReferenceFiles(join(found, "\n  "@)))
    }
}

/// The view of a result holding a path or an error.
pub open spec fn text_result_view(r: Result<String, LingoraError>) -> Result<Seq<char>, ErrorModel> {
    match r {
        Ok(s) => Ok(s@),
        Err(e) => Err(e@),
    }
}

/// Whether two optional names are the same.
fn same_name(a: &Option<String>, b: &Option<String>) -> (res: bool)
    ensures
        res == (crate::paths::opt_text(*a) == crate::paths::opt_text(*b)),
{
    match (a, b) {
        (Some(x), Some(y)) => crate::text::same_text(x, y),
        (None, None) => true,
        _ => false,
    }
}

/// Inserts `x` before the first path that sorts after it.
fn insert_text_by_path(paths: &mut Vec<String>, x: String)
    ensures
        views(final(paths)@) == insert_before(views(old(paths)@), x@, text_path_after()),
{
    let ghost s = views(paths@);
    let n = paths.len();
    let mut p: usize = 0;
    while p < n
        invariant
            n == paths.len(),
            s == views(paths@),
            p <= n,
            forall|j: int| 0 <= j < p ==> !(text_path_after())(#[trigger] s[j], x@),
        ensures
            p <= n,
            forall|j: int| 0 <= j < p ==> !(text_path_after())(#[trigger] s[j], x@),
            p < n ==> (text_path_after())(s[p as int], x@),
        decreases n - p,
    {
        let c = compare_paths(paths[p].as_str(), x.as_str());
        if c > 0 {
            break;
        }
        p += 1;
    }
    proof {
        lemma_insert_before_at(s, x@, text_path_after(), p as int);
    }
    let ghost xv = x@;
    paths.insert(p, x);
    assert(views(paths@) =~= s.take(p as int) + seq![xv] + s.skip(p as int));
}

/// Chooses the reference file of `locale` among `files`: the one whose
/// final component is `<locale>.ftl`.
pub fn select_reference_file(locale: &str, files: &Vec<String>) -> (res: Result<String, LingoraError>)
    ensures
        text_result_view(res) == reference_choice(views(files@), locale@),
{
    let name = concat2(locale, ".ftl");
    proof {
        reveal_strlit(".ftl");
    }
    assert(name@ == reference_file_name(locale@));
    let wanted = path_file_name(name.as_str());
    let ghost fv = views(files@);
    let mut found: Vec<String> = Vec::new();
    let n = files.len();
    let mut i: usize = 0;
    assert(fv.take(0) =~= Seq::<Seq<char>>::empty());
    while i < n
        invariant
            n == files.len(),
            i <= n,
            fv == views(files@),
            crate::paths::opt_text(wanted) == file_name_of(reference_file_name(locale@)),
            views(found@) == insertion_sorted(
                reference_candidates(fv.take(i as int), locale@),
                text_path_after(),
            ),
        decreases n - i,
    {
        let ghost before = fv.take(i as int);
        assert(fv.take(i + 1).drop_last() =~= before);
        assert(fv.take(i + 1).last() == files@[i as int]@);
        let f = path_file_name(files[i].as_str());
        if same_name(&f, &wanted) {
            let ghost c = reference_candidates(before, locale@);
            assert(c.push(files@[i as int]@).drop_last() =~= c);
            insert_text_by_path(&mut found, files[i].clone());
        }
        i += 1;
    }
    assert(fv.take(n as int) =~= fv);
    proof {
        crate::sorting::lemma_insertion_sorted_len(
            reference_candidates(fv, locale@),
            text_path_after(),
        );
    }
    if found.len() == 0 {
        Err(LingoraError::CannotFindReferenceFile(name))
    } else if found.len() == 1 {
        let chosen = found[0].clone();
        Ok(chosen)
    } else {
        let listed = join_strings(&found, "\n  ");
        proof {
            reveal_strlit("\n  ");
        }
        Err(LingoraError::AmbiguousReferenceFiles(listed))
    }
}

/// The `[lingora]` entries of a configuration table; an entry that the
/// table lacks is `None`.
pub struct LingoraEntries {
    pub root: Option<String>,
    pub reference: Option<String>,
    pub targets: Option<Vec<String>>,
}

/// The `[dioxus_i18n]` entries of a configuration table; an entry that the
/// table lacks is `None`.
pub struct DioxusI18nEntries {
    pub with_locale: Option<String>,
    pub shares: Option<Vec<(String, String)>>,
    pub fallback: Option<String>,
}

/// A configuration table as read, before it is checked: the locale of the
/// system, and the two tables, `None` where the table is missing.
pub struct InterimSettings {
    pub locale: String,
    pub lingora: Option<LingoraEntries>,
    pub dioxus_i18n: Option<DioxusI18nEntries>,
}

/// The `[lingora]` entries as text.
pub struct LingoraModel {
    pub root: Option<Seq<char>>,
    pub reference: Option<Seq<char>>,
    pub targets: Option<Seq<Seq<char>>>,
}

/// The `[dioxus_i18n]` entries as text.
pub struct DioxusI18nModel {
    pub with_locale: Option<Seq<char>>,
    pub shares: Option<Seq<(Seq<char>, Seq<char>)>>,
    pub fallback: Option<Seq<char>>,
}

/// A configuration table as text.
pub struct InterimModel {
    pub locale: Seq<char>,
    pub lingora: Option<LingoraModel>,
    pub dioxus_i18n: Option<DioxusI18nModel>,
}

/// The views of a sequence of pairs of strings.
pub open spec fn pair_views(s: Seq<(String, String)>) -> Seq<(Seq<char>, Seq<char>)> {
    s.map_values(|p: (String, String)| (p.0@, p.1@))
}

/// The view of an optional sequence of strings.
pub open spec fn opt_views(o: Option<Vec<String>>) -> Option<Seq<Seq<char>>> {
    match o {
        Some(v) => Some(views(v@)),
        None => None,
    }
}

impl View for LingoraEntries {
    type V = LingoraModel;

    open spec fn view(&self) -> LingoraModel {
        LingoraModel {
            root: crate::paths::opt_text(self.root),
            reference: crate::paths::opt_text(self.reference),
            targets: opt_views(self.targets),
        }
    }
}

impl View for DioxusI18nEntries {
    type V = DioxusI18nModel;

    open spec fn view(&self) -> DioxusI18nModel {
        DioxusI18nModel {
            with_locale: crate::paths::opt_text(self.with_locale),
            shares: match self.shares {
                Some(v) => Some(pair_views(v@)),
                None => None,
            },
            fallback: crate::paths::opt_text(self.fallback),
        }
    }
}

impl View for InterimSettings {
    type V = InterimModel;

    open spec fn view(&self) -> InterimModel {
        InterimModel {
            locale: self.locale@,
            lingora: match self.lingora {
                Some(l) => Some(l@),
                None => None,
            },
            dioxus_i18n: match self.dioxus_i18n {
                Some(d) => Some(d@),
                None => None,
            },
        }
    }
}

/// The `[lingora]` table, empty where it is missing.
pub open spec fn lingora_or_empty(m: InterimModel) -> LingoraModel {
    match m.lingora {
        Some(l) => l,
        None => LingoraModel { root: None, reference: None, targets: None },
    }
}

/// The `[dioxus_i18n]` table, empty where it is missing.
pub open spec fn dioxus_or_empty(m: InterimModel) -> DioxusI18nModel {
    match m.dioxus_i18n {
        Some(d) => d,
        None => DioxusI18nModel { with_locale: None, shares: None, fallback: None },
    }
}

/// The table with the entries given on the command line in place of its
/// own: a root, a reference, and targets where at least one is given.
pub open spec fn overridden(
    m: InterimModel,
    root: Option<Seq<char>>,
    reference: Option<Seq<char>>,
    targets: Seq<Seq<char>>,
) -> InterimModel {
    let l = lingora_or_empty(m);
    InterimModel {
        locale: m.locale,
        lingora: Some(
            LingoraModel {
                root: if root is Some { root } else { l.root },
                reference: if reference is Some { reference } else { l.reference },
                targets: if targets.len() > 0 { Some(targets) } else { l.targets },
            },
        ),
        dioxus_i18n: m.dioxus_i18n,
    }
}

/// The root, `./i18n/` where none is set.
pub open spec fn defaulted_root(l: LingoraModel) -> Seq<char> {
    match l.root {
        Some(r) => r,
        None => "./i18n/"@,
    }
}

/// The targets, the root alone where none are set.
pub open spec fn defaulted_targets(l: LingoraModel) -> Seq<Seq<char>> {
    match l.targets {
        Some(t) => t,
        None => seq![defaulted_root(l)],
    }
}

/// The `[dioxus_i18n]` entries with their defaults: the `auto` method, no
/// shares, and the system locale as the fallback.
pub open spec fn defaulted_dioxus(m: InterimModel) -> DioxusI18nModel {
    let d = dioxus_or_empty(m);
    DioxusI18nModel {
        with_locale: Some(
            match d.with_locale {
                Some(w) => w,
                None => "auto"@,
            },
        ),
        shares: Some(
            match d.shares {
                Some(s) => s,
                None => Seq::empty(),
            },
        ),
        fallback: Some(
            match d.fallback {
                Some(f) => f,
                None => m.locale,
            },
        ),
    }
}

/// The table with every missing entry given its default; the reference,
/// where none is set, is chosen among `files` (the files under the
/// targets), and the table is refused when that choice fails.
pub open spec fn defaulted(m: InterimModel, files: Seq<Seq<char>>) -> Result<InterimModel, ErrorModel> {
    let l = lingora_or_empty(m);
    let reference = match l.reference {
        Some(r) => Ok(r),
        None => reference_choice(files, m.locale),
    };
    match reference {
        Err(e) => Err(e),
        Ok(r) => Ok(
            InterimModel {
                locale: m.locale,
                lingora: Some(
                    LingoraModel {
                        root: Some(defaulted_root(l)),
                        reference: Some(r),
                        targets: Some(defaulted_targets(l)),
                    },
                ),
                dioxus_i18n: Some(defaulted_dioxus(m)),
            },
        ),
    }
}

/// The view of a result holding a configuration table.
pub open spec fn interim_result_view(r: Result<InterimSettings, LingoraError>) -> Result<InterimModel, ErrorModel> {
    match r {
        Ok(s) => Ok(s@),
        Err(e) => Err(e@),
    }
}

/// A copy of an optional string.
fn copy_opt(o: &Option<String>) -> (res: Option<String>)
    ensures
        crate::paths::opt_text(res) == crate::paths::opt_text(*o),
{
    match o {
        Some(s) => Some(s.clone()),
        None => None,
    }
}

impl InterimSettings {
    /// The table with the root, reference and targets given on the command
    /// line in place of its own; targets replace the table's only where at
    /// least one is given.
    pub fn override_from_arguments(self, root: Option<String>, reference: Option<String>, targets: Vec<String>) -> (res: InterimSettings)
        ensures
            res@ == overridden(self@, crate::paths::opt_text(root), crate::paths::opt_text(reference), views(targets@)),
    {
        let InterimSettings { locale, lingora, dioxus_i18n } = self;
        let l = match lingora {
            Some(l) => l,
            None => LingoraEntries { root: None, reference: None, targets: None },
        };
        let LingoraEntries { root: old_root, reference: old_reference, targets: old_targets } = l;
        let new_root = match root {
            Some(r) => Some(r),
            None => old_root,
        };
        let new_reference = match reference {
            Some(r) => Some(r),
            None => old_reference,
        };
        let new_targets = if targets.len() > 0 {
            Some(targets)
        } else {
            old_targets
        };
        let res = InterimSettings {
            locale,
            lingora: Some(LingoraEntries { root: new_root, reference: new_reference, targets: new_targets }),
            dioxus_i18n,
        };
        assert(res@.lingora == overridden(self@, crate::paths::opt_text(root), crate::paths::opt_text(reference), views(targets@)).lingora);
        res
    }

    /// The targets that the table names once defaulted: its own, or its
    /// root alone (`./i18n/` where it names none).
    pub fn target_paths(&self) -> (res: Vec<String>)
        ensures
            views(res@) == defaulted_targets(lingora_or_empty(self@)),
    {
        let (root, targets) = match &self.lingora {
            Some(l) => (copy_opt(&l.root), match &l.targets {
                Some(t) => Some(crate::config::copy_strings(t)),
                None => None,
            }),
            None => (None, None),
        };
        match targets {
            Some(t) => t,
            None => {
                let r = match root {
                    Some(r) => r,
                    None => {
                        proof {
                            reveal_strlit("./i18n/");
                        }
                        String::from_str("./i18n/")
                    },
                };
                let mut v: Vec<String> = Vec::new();
                v.push(r);
                assert(views(v@) =~= seq![defaulted_root(lingora_or_empty(self@))]);
                v
            },
        }
    }

    /// The table with every missing entry given its default. Where no
    /// reference is set it is chosen among `target_files`, the files found
    /// under the targets that `target_paths` lists.
    pub fn with_defaulted_missing_entries(self, target_files: &Vec<String>) -> (res: Result<InterimSettings, LingoraError>)
        ensures
            interim_result_view(res) == defaulted(self@, views(target_files@)),
    {
        let ghost m = self@;
        let targets = self.target_paths();
        let InterimSettings { locale, lingora, dioxus_i18n } = self;
        let (root, reference) = match lingora {
            Some(l) => (l.root, l.reference),
            None => (None, None),
        };
        let root = match root {
            Some(r) => r,
            None => {
                proof {
                    reveal_strlit("./i18n/");
                }
                String::from_str("./i18n/")
            },
        };
        let reference = match reference {
            Some(r) => r,
            None => match select_reference_file(locale.as_str(), target_files) {
                Ok(r) => r,
                Err(e) => {
                    return Err(e);
                },
            },
        };
        let (with_locale, shares, fallback) = match dioxus_i18n {
            Some(d) => (d.with_locale, d.shares, d.fallback),
            None => (None, None, None),
        };
        let with_locale = match with_locale {
            Some(w) => w,
            None => {
                proof {
                    reveal_strlit("auto");
                }
                String::from_str("auto")
            },
        };
        let shares = match shares {
            Some(s) => s,
            None => Vec::new(),
        };
        let fallback = match fallback {
            Some(f) => f,
            None => locale.clone(),
        };
        let res = InterimSettings {
            locale,
            lingora: Some(LingoraEntries { root: Some(root), reference: Some(reference), targets: Some(targets) }),
            dioxus_i18n: Some(DioxusI18nEntries { with_locale: Some(with_locale), shares: Some(shares), fallback: Some(fallback) }),
        };
        assert(pair_views(Seq::<(String, String)>::empty()) =~= Seq::empty());
        Ok(res)
    }
}

/// The checked settings of the single-reference analysis.
pub struct Settings {
    pub root: String,
    pub reference: String,
    pub targets: Vec<String>,
    pub with_locale: crate::integrity::WithLocale,
    pub shares: Vec<(crate::locale::Locale, crate::locale::Locale)>,
    pub fallback: crate::locale::Locale,
}

/// The paths of `files` other than `reference` (by their components), in
/// their order.
pub open spec fn without_path(files: Seq<Seq<char>>, reference: Seq<char>) -> Seq<Seq<char>>
    decreases files.len(),
{
    if files.len() == 0 {
        Seq::empty()
    } else {
        let rest = without_path(files.drop_last(), reference);
        if same_path(files.last(), reference) {
            rest
        } else {
            rest.push(files.last())
        }
    }
}

/// Found files, as views: each path with whether it was found under a
/// target folder.
pub open spec fn found_view(s: Seq<(String, bool)>) -> Seq<(Seq<char>, bool)> {
    s.map_values(|f: (String, bool)| (f.0@, f.1))
}

/// The target files among those found, in order: those that are not the
/// reference (by their components) and, when found under a target folder,
/// have the extension `ftl`.
pub open spec fn target_files_of(found: Seq<(Seq<char>, bool)>, reference: Seq<char>) -> Seq<Seq<char>>
    decreases found.len(),
{
    if found.len() == 0 {
        Seq::empty()
    } else {
        let rest = target_files_of(found.drop_last(), reference);
        let f = found.last();
        if !same_path(f.0, reference) && (!f.1 || crate::paths::extension_of(f.0) == Some("ftl"@)) {
            rest.push(f.0)
        } else {
            rest
        }
    }
}

/// No target file is the reference.
pub proof fn lemma_target_files_exclude(found: Seq<(Seq<char>, bool)>, reference: Seq<char>)
    ensures
        forall|i: int|
            0 <= i < target_files_of(found, reference).len() ==> !same_path(
                #[trigger] target_files_of(found, reference)[i],
                reference,
            ),
    decreases found.len(),
{
    if found.len() > 0 {
        let rest = target_files_of(found.drop_last(), reference);
        let all = target_files_of(found, reference);
        lemma_target_files_exclude(found.drop_last(), reference);
        assert forall|i: int| 0 <= i < all.len() implies !same_path(#[trigger] all[i], reference) by {
            if i < rest.len() {
                assert(all[i] == rest[i]);
            }
        }
    }
}

/// Every path left by `without_path` is one of the files.
pub proof fn lemma_without_path_contains(files: Seq<Seq<char>>, reference: Seq<char>)
    ensures
        forall|i: int|
            0 <= i < without_path(files, reference).len() ==> files.contains(
                #[trigger] without_path(files, reference)[i],
            ),
    decreases files.len(),
{
    if files.len() > 0 {
        let rest = without_path(files.drop_last(), reference);
        let all = without_path(files, reference);
        lemma_without_path_contains(files.drop_last(), reference);
        assert forall|i: int| 0 <= i < all.len() implies files.contains(#[trigger] all[i]) by {
            if i < rest.len() {
                assert(all[i] == rest[i]);
                let k = choose|k: int| 0 <= k < files.drop_last().len() && files.drop_last()[k] == rest[i];
                assert(files[k] == all[i]);
            } else {
                assert(files[files.len() - 1] == all[i]);
            }
        }
    }
}

/// The paths of `found` other than `reference`, in their order.
pub fn without_reference(found: &Vec<String>, reference: &str) -> (res: Vec<String>)
    ensures
        views(res@) == without_path(views(found@), reference@),
        forall|i: int| 0 <= i < res.len() ==> !same_path(#[trigger] res@[i]@, reference@),
{
    let ghost fv = views(found@);
    let mut res: Vec<String> = Vec::new();
    let n = found.len();
    let mut i: usize = 0;
    assert(fv.take(0) =~= Seq::<Seq<char>>::empty());
    while i < n
        invariant
            n == found.len(),
            i <= n,
            fv == views(found@),
            views(res@) == without_path(fv.take(i as int), reference@),
        decreases n - i,
    {
        assert(fv.take(i + 1).drop_last() =~= fv.take(i as int));
        assert(fv.take(i + 1).last() == found@[i as int]@);
        if !paths_equal(found[i].as_str(), reference) {
            let ghost before = views(res@);
            res.push(found[i].clone());
            assert(views(res@) =~= before.push(found@[i as int]@));
        }
        i += 1;
    }
    assert(fv.take(n as int) =~= fv);
    proof {
        lemma_without_path_excludes(fv, reference@);
        assert forall|i: int| 0 <= i < res.len() implies !same_path(#[trigger] res@[i]@, reference@) by {
            assert(views(res@)[i] == res@[i]@);
        }
    }
    res
}

/// The paths sorted by their components; paths with equal components keep
/// their order.
pub fn sort_paths(paths: &Vec<String>) -> (res: Vec<String>)
    ensures
        views(res@) == insertion_sorted(views(paths@), text_path_after()),
{
    let ghost pv = views(paths@);
    let mut res: Vec<String> = Vec::new();
    let n = paths.len();
    let mut i: usize = 0;
    assert(views(res@) =~= insertion_sorted(pv.take(0), text_path_after()));
    while i < n
        invariant
            n == paths.len(),
            i <= n,
            pv == views(paths@),
            views(res@) == insertion_sorted(pv.take(i as int), text_path_after()),
        decreases n - i,
    {
        assert(pv.take(i + 1).drop_last() =~= pv.take(i as int));
        assert(pv.take(i + 1).last() == paths@[i as int]@);
        insert_text_by_path(&mut res, paths[i].clone());
        i += 1;
    }
    assert(pv.take(n as int) =~= pv);
    res
}

/// No path left by `without_path` is the reference.
pub proof fn lemma_without_path_excludes(files: Seq<Seq<char>>, reference: Seq<char>)
    ensures
        forall|i: int|
            0 <= i < without_path(files, reference).len() ==> !same_path(
                #[trigger] without_path(files, reference)[i],
                reference,
            ),
    decreases files.len(),
{
    if files.len() > 0 {
        let rest = without_path(files.drop_last(), reference);
        let all = without_path(files, reference);
        lemma_without_path_excludes(files.drop_last(), reference);
        assert forall|i: int| 0 <= i < all.len() implies !same_path(#[trigger] all[i], reference) by {
            if i < rest.len() {
                assert(all[i] == rest[i]);
            }
        }
    }
}

/// The settings, as views.
pub struct SettingsModel {
    pub root: Seq<char>,
    pub reference: Seq<char>,
    pub targets: Seq<Seq<char>>,
    pub with_locale: crate::integrity::WithLocale,
    pub shares: Seq<(crate::locale::LocaleModel, crate::locale::LocaleModel)>,
    pub fallback: crate::locale::LocaleModel,
}

impl View for Settings {
    type V = SettingsModel;

    open spec fn view(&self) -> SettingsModel {
        SettingsModel {
            root: self.root@,
            reference: self.reference@,
            targets: views(self.targets@),
            with_locale: self.with_locale,
            shares: self.shares@.map_values(
                |p: (crate::locale::Locale, crate::locale::Locale)| (p.0@, p.1@),
            ),
            fallback: self.fallback@,
        }
    }
}

/// A text in double quotes.
pub open spec fn quoted(t: Seq<char>) -> Seq<char> {
    "\""@ + t + "\""@
}

/// The TOML name of a loading method.
pub open spec fn with_locale_text(w: crate::integrity::WithLocale) -> Seq<char> {
    match w {
        crate::integrity::WithLocale::IncludeStr => "includestr"@,
        crate::integrity::WithLocale::PathBuf => "pathbuf"@,
        crate::integrity::WithLocale::Auto => "auto"@,
    }
}

/// A share written as a pair of quoted locales.
pub open spec fn share_pair_text(s: (crate::locale::LocaleModel, crate::locale::LocaleModel)) -> Seq<char> {
    "("@ + quoted(crate::locale::locale_text(s.0)) + ", "@ + quoted(crate::locale::locale_text(s.1)) + ")"@
}

/// The settings written as the two tables of their configuration file.
pub open spec fn settings_text(m: SettingsModel) -> Seq<char> {
    "[lingora]\nroot = "@ + quoted(m.root) + "\nreference = "@ + quoted(m.reference) + "\ntargets = ["@
        + join(m.targets.map_values(|t: Seq<char>| quoted(t)), ", "@) + "]\n\n[dioxus_i18n]\nwith_locale = "@
        + quoted(with_locale_text(m.with_locale)) + "\nshares = ["@
        + join(m.shares.map_values(|s: (crate::locale::LocaleModel, crate::locale::LocaleModel)| share_pair_text(s)), ", "@)
        + "]\nfallback = "@ + quoted(crate::locale::locale_text(m.fallback))
}

/// Appends `t` in double quotes.
fn append_quoted(out: &mut String, t: &str)
    ensures
        final(out)@ == old(out)@ + quoted(t@),
{
    proof {
        reveal_strlit("\"");
    }
    out.append("\"");
    out.append(t);
    out.append("\"");
}

impl Settings {
    /// The settings written as the two tables of their configuration file.
    pub fn to_text(&self) -> (res: String)
        ensures
            res@ == settings_text(self@),
    {
        proof {
            reveal_strlit("[lingora]\nroot = ");
            reveal_strlit("\nreference = ");
            reveal_strlit("\ntargets = [");
            reveal_strlit("]\n\n[dioxus_i18n]\nwith_locale = ");
            reveal_strlit("\nshares = [");
            reveal_strlit("]\nfallback = ");
            reveal_strlit(", ");
            reveal_strlit("(");
            reveal_strlit(")");
        }
        let ghost m = self@;
        let mut out = String::from_str("[lingora]\nroot = ");
        append_quoted(&mut out, self.root.as_str());
        out.append("\nreference = ");
        append_quoted(&mut out, self.reference.as_str());
        out.append("\ntargets = [");
        let ghost head = out@;
        let ghost tq = m.targets.map_values(|t: Seq<char>| quoted(t));
        let n = self.targets.len();
        let mut i: usize = 0;
        assert(head + join(tq.take(0), ", "@) =~= head);
        while i < n
            invariant
                n == self.targets.len(),
                i <= n,
                m == self@,
                tq == m.targets.map_values(|t: Seq<char>| quoted(t)),
                out@ == head + join(tq.take(i as int), ", "@),
            decreases n - i,
        {
            proof {
                reveal_strlit(", ");
            }
            if i != 0 {
                out.append(", ");
            }
            append_quoted(&mut out, self.targets[i].as_str());
            assert(tq.take(i + 1).drop_last() =~= tq.take(i as int));
            assert(tq.take(i + 1).last() == quoted(self.targets@[i as int]@));
            assert(out@ =~= head + join(tq.take(i + 1), ", "@));
            i += 1;
        }
        assert(tq.take(n as int) =~= tq);
        out.append("]\n\n[dioxus_i18n]\nwith_locale = ");
        append_quoted(&mut out, self.with_locale.to_text());
        out.append("\nshares = [");
        let ghost head2 = out@;
        let ghost sq = m.shares.map_values(|s: (crate::locale::LocaleModel, crate::locale::LocaleModel)| share_pair_text(s));
        let k = self.shares.len();
        let mut j: usize = 0;
        assert(head2 + join(sq.take(0), ", "@) =~= head2);
        while j < k
            invariant
                k == self.shares.len(),
                j <= k,
                m == self@,
                sq == m.shares.map_values(|s: (crate::locale::LocaleModel, crate::locale::LocaleModel)| share_pair_text(s)),
                out@ == head2 + join(sq.take(j as int), ", "@),
            decreases k - j,
        {
            proof {
                reveal_strlit(", ");
                reveal_strlit("(");
                reveal_strlit(")");
            }
            let ghost before = out@;
            if j != 0 {
                out.append(", ");
            }
            let ghost mid = out@;
            let source = self.shares[j].0.to_text();
            let target = self.shares[j].1.to_text();
            out.append("(");
            append_quoted(&mut out, source.as_str());
            out.append(", ");
            append_quoted(&mut out, target.as_str());
            out.append(")");
            assert(m.shares[j as int] == (self.shares@[j as int].0@, self.shares@[j as int].1@));
            assert(out@ =~= mid + share_pair_text(m.shares[j as int]));
            assert(sq.take(j + 1).drop_last() =~= sq.take(j as int));
            assert(sq.take(j + 1).last() == share_pair_text(m.shares[j as int]));
            assert(out@ =~= head2 + join(sq.take(j + 1), ", "@));
            j += 1;
        }
        assert(sq.take(k as int) =~= sq);
        out.append("]\nfallback = ");
        let fallback = self.fallback.to_text();
        append_quoted(&mut out, fallback.as_str());
        out
    }
}

impl Settings {
    /// The root folder of the translation files.
    pub fn root(&self) -> (res: &str)
        ensures
            res@ == self.root@,
    {
        self.root.as_str()
    }

    /// The reference file.
    pub fn reference_path(&self) -> (res: &str)
        ensures
            res@ == self.reference@,
    {
        self.reference.as_str()
    }

    /// The locale that the reference file's name gives.
    pub fn reference_locale(&self) -> (res: Result<crate::locale::Locale, LingoraError>)
        ensures
            match res {
                Ok(l) => crate::locale::locale_of_path(self.reference@) == Some(l@),
                Err(e) => crate::locale::locale_of_path(self.reference@) is None && e is InvalidLocale,
            },
    {
        crate::locale::Locale::try_from_path(self.reference.as_str())
    }

    /// The target files: of `found` (each file found, with whether it was
    /// found under a target folder rather than named as a target), in order,
    /// those that are not the reference and, when found under a folder, have
    /// the extension `ftl`.
    pub fn targets(&self, found: &Vec<(String, bool)>) -> (res: Vec<String>)
        ensures
            views(res@) == target_files_of(found_view(found@), self.reference@),
            forall|i: int| 0 <= i < res.len() ==> !same_path(#[trigger] res@[i]@, self.reference@),
    {
        let ghost fv = found_view(found@);
        let ghost r = self.reference@;
        let mut res: Vec<String> = Vec::new();
        let n = found.len();
        let mut i: usize = 0;
        assert(fv.take(0) =~= Seq::<(Seq<char>, bool)>::empty());
        while i < n
            invariant
                n == found.len(),
                i <= n,
                fv == found_view(found@),
                r == self.reference@,
                views(res@) == target_files_of(fv.take(i as int), r),
            decreases n - i,
        {
            assert(fv.take(i + 1).drop_last() =~= fv.take(i as int));
            assert(fv.take(i + 1).last() == (found@[i as int].0@, found@[i as int].1));
            let (path, under_folder) = &found[i];
            proof {
                reveal_strlit("ftl");
            }
            if !paths_equal(path.as_str(), self.reference.as_str())
                && (!*under_folder || crate::paths::has_extension(path.as_str(), "ftl")) {
                let ghost before = views(res@);
                res.push(path.clone());
                assert(views(res@) =~= before.push(path@));
            }
            i += 1;
        }
        assert(fv.take(n as int) =~= fv);
        proof {
            lemma_target_files_exclude(fv, r);
            assert forall|i: int| 0 <= i < res.len() implies !same_path(#[trigger] res@[i]@, r) by {
                assert(views(res@)[i] == res@[i]@);
            }
        }
        res
    }

    /// How `dioxus_i18n` is to load each locale's file.
    pub fn with_locale(&self) -> (res: &crate::integrity::WithLocale)
        ensures
            *res == self.with_locale,
    {
        &self.with_locale
    }

    /// The pairs of locales that share a file.
    pub fn shares(&self) -> (res: &[(crate::locale::Locale, crate::locale::Locale)])
        ensures
            res@ == self.shares@,
    {
        self.shares.as_slice()
    }

    /// The fallback locale.
    pub fn fallback(&self) -> (res: &crate::locale::Locale)
        ensures
            *res == self.fallback,
    {
        &self.fallback
    }
}

} // verus!
