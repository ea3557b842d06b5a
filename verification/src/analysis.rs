//! The single-reference analysis: the warnings found for each checked file,
//! the files grouped by the locale their names give and by language, and
//! the text report of the warnings.
use vstd::prelude::*;
use crate::assoc::{has_key, lookup, upsert, keys_unique, lemma_key_pos, lemma_upsert};
use crate::integrity::{LanguageId, Validated, ValidatedModel, Warning, WarningModel, pb2id, stem_or_empty, unic_language_identifier, category_text, value_text};
use crate::order::{text_order, compare_text};
use crate::paths::{invalid_filename_text, invalid_filename_as_string, same_path, paths_equal};
use crate::settings::text_path_after;
use crate::sorting::{insertion_sorted, lemma_insert_before_at};
use crate::text::{views, spaces, concat_texts, append_spaces};

verus! {

/// The warnings found for each checked file, in the order the files were
/// checked.
pub struct IntegrityChecks {
    pub entries: Vec<(String, Vec<Warning>)>,
}

/// The views of a sequence of warnings.
pub open spec fn warnings_view(s: Seq<Warning>) -> Seq<WarningModel> {
    s.map_values(|w: Warning| w@)
}

/// The checks, as views.
pub open spec fn checks_view(s: Seq<(String, Vec<Warning>)>) -> Seq<(Seq<char>, Seq<WarningModel>)> {
    s.map_values(|e: (String, Vec<Warning>)| (e.0@, warnings_view(e.1@)))
}

/// The checked paths, in order.
pub open spec fn checked_paths(c: Seq<(Seq<char>, Seq<WarningModel>)>) -> Seq<Seq<char>> {
    c.map_values(|e: (Seq<char>, Seq<WarningModel>)| e.0)
}

/// The warnings of the first checked file whose path is `path` (by its
/// components).
pub open spec fn warnings_of(c: Seq<(Seq<char>, Seq<WarningModel>)>, path: Seq<char>) -> Option<Seq<WarningModel>>
    decreases c.len(),
{
    if c.len() == 0 {
        None
    } else if same_path(c[0].0, path) {
        Some(c[0].1)
    } else {
        warnings_of(c.drop_first(), path)
    }
}

/// The locale a file name gives: the language identifier of its stem (its
/// text and the text of its language), or, as invalid, the file name.
pub enum LocaleKey {
    Valid(Seq<char>, Seq<char>),
    Invalid(Seq<char>),
}

/// The view of a validated language identifier.
pub open spec fn locale_key_view(v: Validated<LanguageId>) -> LocaleKey {
    match v {
        Validated::Valid(id) => LocaleKey::Valid(id.text@, id.language@),
        Validated::Invalid(s) => LocaleKey::Invalid(s@),
    }
}

/// The locale the name of `path` gives.
pub open spec fn locale_key_of(path: Seq<char>) -> LocaleKey {
    match unic_language_identifier(stem_or_empty(path)) {
        Some(id) => LocaleKey::Valid(id.0, id.1),
        None => LocaleKey::Invalid(invalid_filename_text(path)),
    }
}

/// The language of a locale: its language subtag, or `≪Unknown≫` for a
/// name that is no locale.
pub open spec fn language_key_of(k: LocaleKey) -> ValidatedModel {
    match k {
        LocaleKey::Valid(_, l) => ValidatedModel::Valid(l),
        LocaleKey::Invalid(_) => ValidatedModel::Invalid("≪Unknown≫"@),
    }
}

/// Paths grouped by locale.
pub type LocaleGroups = Seq<(LocaleKey, Seq<Seq<char>>)>;

/// The paths grouped by the locale their names give, locales in the order
/// they first occur, paths in their order.
pub open spec fn grouped_by_locale(paths: Seq<Seq<char>>) -> LocaleGroups
    decreases paths.len(),
{
    if paths.len() == 0 {
        Seq::empty()
    } else {
        let g = grouped_by_locale(paths.drop_last());
        let k = locale_key_of(paths.last());
        upsert(
            g,
            k,
            match lookup(g, k) {
                Some(ps) => ps.push(paths.last()),
                None => seq![paths.last()],
            },
        )
    }
}

/// The locale groups grouped by language, languages in the order they
/// first occur.
pub open spec fn grouped_by_language(groups: LocaleGroups) -> Seq<(ValidatedModel, LocaleGroups)>
    decreases groups.len(),
{
    if groups.len() == 0 {
        Seq::empty()
    } else {
        let g = grouped_by_language(groups.drop_last());
        let k = groups.last().0;
        let lk = language_key_of(k);
        let inner = match lookup(g, lk) {
            Some(i) => i,
            None => Seq::empty(),
        };
        upsert(g, lk, upsert(inner, k, groups.last().1))
    }
}

/// An analysis, as views.
pub struct AnalysisModel {
    pub checks: Seq<(Seq<char>, Seq<WarningModel>)>,
    pub locales: LocaleGroups,
    pub languages: Seq<(ValidatedModel, LocaleGroups)>,
}

/// The checks of the analysed files, with the files grouped by locale and
/// by language.
pub struct Analysis {
    checks: IntegrityChecks,
    locales: Vec<(Validated<LanguageId>, Vec<String>)>,
    languages: Vec<(Validated<String>, Vec<(Validated<LanguageId>, Vec<String>)>)>,
}

/// Locale groups, as views.
pub open spec fn groups_view(s: Seq<(Validated<LanguageId>, Vec<String>)>) -> LocaleGroups {
    s.map_values(|e: (Validated<LanguageId>, Vec<String>)| (locale_key_view(e.0), views(e.1@)))
}

/// The view of validated text.
pub open spec fn validated_text_view(v: Validated<String>) -> ValidatedModel {
    crate::integrity::validated_view(v)
}

/// Language groups, as views.
pub open spec fn languages_view(s: Seq<(Validated<String>, Vec<(Validated<LanguageId>, Vec<String>)>)>) -> Seq<(ValidatedModel, LocaleGroups)> {
    s.map_values(
        |e: (Validated<String>, Vec<(Validated<LanguageId>, Vec<String>)>)|
            (validated_text_view(e.0), groups_view(e.1@)),
    )
}

impl View for Analysis {
    type V = AnalysisModel;

    closed spec fn view(&self) -> AnalysisModel {
        AnalysisModel {
            checks: checks_view(self.checks.entries@),
            locales: groups_view(self.locales@),
            languages: languages_view(self.languages@),
        }
    }
}

/// The locale the name of `path` gives.
fn locale_key(path: &str) -> (res: Validated<LanguageId>)
    ensures
        locale_key_view(res) == locale_key_of(path@),
{
    match pb2id(path) {
        Some(id) => Validated::Valid(id),
        None => Validated::Invalid(invalid_filename_as_string(path)),
    }
}

/// Whether two locales are the same.
fn same_locale_key(a: &Validated<LanguageId>, b: &Validated<LanguageId>) -> (res: bool)
    ensures
        res == (locale_key_view(*a) == locale_key_view(*b)),
{
    match (a, b) {
        (Validated::Valid(x), Validated::Valid(y)) => crate::text::same_text(&x.text, &y.text)
            && crate::text::same_text(&x.language, &y.language),
        (Validated::Invalid(x), Validated::Invalid(y)) => crate::text::same_text(x, y),
        _ => false,
    }
}

/// Whether two validated texts are the same.
fn same_validated(a: &Validated<String>, b: &Validated<String>) -> (res: bool)
    ensures
        res == (validated_text_view(*a) == validated_text_view(*b)),
{
    match (a, b) {
        (Validated::Valid(x), Validated::Valid(y)) => crate::text::same_text(x, y),
        (Validated::Invalid(x), Validated::Invalid(y)) => crate::text::same_text(x, y),
        _ => false,
    }
}

/// A copy of a locale.
fn copy_locale_key(k: &Validated<LanguageId>) -> (res: Validated<LanguageId>)
    ensures
        locale_key_view(res) == locale_key_view(*k),
{
    match k {
        Validated::Valid(id) => Validated::Valid(LanguageId { text: id.text.clone(), language: id.language.clone() }),
        Validated::Invalid(s) => Validated::Invalid(s.clone()),
    }
}

/// A copy of locale groups.
fn copy_groups(s: &Vec<(Validated<LanguageId>, Vec<String>)>) -> (res: Vec<(Validated<LanguageId>, Vec<String>)>)
    ensures
        groups_view(res@) == groups_view(s@),
{
    let mut res: Vec<(Validated<LanguageId>, Vec<String>)> = Vec::new();
    let n = s.len();
    let mut i: usize = 0;
    while i < n
        invariant
            n == s.len(),
            i <= n,
            groups_view(res@) == groups_view(s@).take(i as int),
        decreases n - i,
    {
        let k = copy_locale_key(&s[i].0);
        let ps = crate::config::copy_strings(&s[i].1);
        let ghost before = groups_view(res@);
        res.push((k, ps));
        assert(groups_view(res@) =~= before.push(groups_view(s@)[i as int]));
        assert(groups_view(s@).take(i + 1) =~= groups_view(s@).take(i as int).push(groups_view(s@)[i as int]));
        i += 1;
    }
    assert(groups_view(s@).take(n as int) =~= groups_view(s@));
    res
}

/// The position of locale `k` among the groups, or their number when it
/// is not there.
fn find_locale(groups: &Vec<(Validated<LanguageId>, Vec<String>)>, k: &Validated<LanguageId>) -> (res: usize)
    ensures
        res <= groups.len(),
        forall|j: int| 0 <= j < res ==> (#[trigger] groups_view(groups@)[j]).0 != locale_key_view(*k),
        res < groups.len() ==> groups_view(groups@)[res as int].0 == locale_key_view(*k),
{
    let m = groups.len();
    let mut p: usize = 0;
    while p < m
        invariant
            m == groups.len(),
            p <= m,
            forall|j: int| 0 <= j < p ==> (#[trigger] groups_view(groups@)[j]).0 != locale_key_view(*k),
        ensures
            p <= m,
            forall|j: int| 0 <= j < p ==> (#[trigger] groups_view(groups@)[j]).0 != locale_key_view(*k),
            p < m ==> groups_view(groups@)[p as int].0 == locale_key_view(*k),
        decreases m - p,
    {
        if same_locale_key(&groups[p].0, k) {
            break;
        }
        p += 1;
    }
    p
}

/// Sets the paths of locale `k` among the groups, adding the locale when
/// it is new.
fn upsert_group(groups: &mut Vec<(Validated<LanguageId>, Vec<String>)>, k: Validated<LanguageId>, ps: Vec<String>)
    requires
        keys_unique(groups_view(old(groups)@)),
    ensures
        groups_view(final(groups)@) == upsert(groups_view(old(groups)@), locale_key_view(k), views(ps@)),
        keys_unique(groups_view(final(groups)@)),
{
    let ghost before = groups_view(groups@);
    let ghost kv = locale_key_view(k);
    let ghost pv = views(ps@);
    proof {
        lemma_upsert(before, kv, pv);
    }
    let p = find_locale(groups, &k);
    if p < groups.len() {
        proof {
            lemma_key_pos(before, kv, p as int);
        }
        groups.set(p, (k, ps));
        assert(groups_view(groups@) =~= upsert(before, kv, pv));
    } else {
        assert(!has_key(before, kv));
        groups.push((k, ps));
        assert(groups_view(groups@) =~= upsert(before, kv, pv));
    }
}

/// The language of a locale.
fn language_key(k: &Validated<LanguageId>) -> (res: Validated<String>)
    ensures
        validated_text_view(res) == language_key_of(locale_key_view(*k)),
{
    match k {
        Validated::Valid(id) => Validated::Valid(id.language.clone()),
        Validated::Invalid(_) => {
            proof {
                reveal_strlit("≪Unknown≫");
            }
            Validated::Invalid(String::from_str("≪Unknown≫"))
        },
    }
}

/// Whether every language's locale groups have distinct locales.
pub open spec fn inner_keys_unique(s: Seq<(ValidatedModel, LocaleGroups)>) -> bool {
    forall|i: int| 0 <= i < s.len() ==> keys_unique(#[trigger] s[i].1)
}

/// The paths grouped by the locale their names give.
fn group_by_locale(paths: &Vec<String>) -> (res: Vec<(Validated<LanguageId>, Vec<String>)>)
    ensures
        groups_view(res@) == grouped_by_locale(views(paths@)),
        keys_unique(groups_view(res@)),
{
    let ghost pv = views(paths@);
    let mut res: Vec<(Validated<LanguageId>, Vec<String>)> = Vec::new();
    let n = paths.len();
    let mut i: usize = 0;
    assert(pv.take(0) =~= Seq::<Seq<char>>::empty());
    while i < n
        invariant
            n == paths.len(),
            i <= n,
            pv == views(paths@),
            groups_view(res@) == grouped_by_locale(pv.take(i as int)),
            keys_unique(groups_view(res@)),
        decreases n - i,
    {
        let ghost g = groups_view(res@);
        assert(pv.take(i + 1).drop_last() =~= pv.take(i as int));
        assert(pv.take(i + 1).last() == paths@[i as int]@);
        let k = locale_key(paths[i].as_str());
        let p = find_locale(&res, &k);
        let mut ps: Vec<String> = if p < res.len() {
            proof {
                lemma_key_pos(g, locale_key_view(k), p as int);
            }
            crate::config::copy_strings(&res[p].1)
        } else {
            assert(!has_key(g, locale_key_view(k)));
            Vec::new()
        };
        let ghost old_ps = views(ps@);
        ps.push(paths[i].clone());
        assert(views(ps@) =~= old_ps.push(paths@[i as int]@));
        assert(views(ps@) == match lookup(g, locale_key_view(k)) {
            Some(q) => q.push(paths@[i as int]@),
            None => seq![paths@[i as int]@],
        });
        upsert_group(&mut res, k, ps);
        i += 1;
    }
    assert(pv.take(n as int) =~= pv);
    res
}

/// The locale groups grouped by language.
fn group_by_language(groups: &Vec<(Validated<LanguageId>, Vec<String>)>) -> (res: Vec<(Validated<String>, Vec<(Validated<LanguageId>, Vec<String>)>)>)
    ensures
        languages_view(res@) == grouped_by_language(groups_view(groups@)),
        keys_unique(languages_view(res@)),
        inner_keys_unique(languages_view(res@)),
{
    let ghost gv = groups_view(groups@);
    let mut res: Vec<(Validated<String>, Vec<(Validated<LanguageId>, Vec<String>)>)> = Vec::new();
    let n = groups.len();
    let mut i: usize = 0;
    assert(gv.take(0) =~= Seq::<(LocaleKey, Seq<Seq<char>>)>::empty());
    while i < n
        invariant
            n == groups.len(),
            i <= n,
            gv == groups_view(groups@),
            languages_view(res@) == grouped_by_language(gv.take(i as int)),
            keys_unique(languages_view(res@)),
            inner_keys_unique(languages_view(res@)),
        decreases n - i,
    {
        let ghost lv = languages_view(res@);
        assert(gv.take(i + 1).drop_last() =~= gv.take(i as int));
        assert(gv.take(i + 1).last() == gv[i as int]);
        let k = copy_locale_key(&groups[i].0);
        let ps = crate::config::copy_strings(&groups[i].1);
        assert(gv[i as int] == (locale_key_view(groups@[i as int].0), views(groups@[i as int].1@)));
        let lk = language_key(&k);
        let ghost lkv = validated_text_view(lk);
        let m = res.len();
        let mut p: usize = 0;
        while p < m
            invariant
                m == res.len(),
                p <= m,
                lv == languages_view(res@),
                lkv == validated_text_view(lk),
                forall|j: int| 0 <= j < p ==> (#[trigger] lv[j]).0 != lkv,
            ensures
                p <= m,
                forall|j: int| 0 <= j < p ==> (#[trigger] lv[j]).0 != lkv,
                p < m ==> lv[p as int].0 == lkv,
            decreases m - p,
        {
            assert(lv[p as int].0 == validated_text_view(res@[p as int].0));
            if same_validated(&res[p].0, &lk) {
                break;
            }
            p += 1;
        }
        let mut inner: Vec<(Validated<LanguageId>, Vec<String>)> = if p < m {
            proof {
                lemma_key_pos(lv, lkv, p as int);
            }
            assert(lv[p as int].1 == groups_view(res@[p as int].1@));
            copy_groups(&res[p].1)
        } else {
            assert(!has_key(lv, lkv));
            let v: Vec<(Validated<LanguageId>, Vec<String>)> = Vec::new();
            assert(groups_view(v@) =~= Seq::empty());
            v
        };
        assert(keys_unique(groups_view(inner@)));
        let ghost inner_before = groups_view(inner@);
        assert(inner_before == match lookup(lv, lkv) {
            Some(x) => x,
            None => Seq::empty(),
        });
        assert(lkv == language_key_of(gv[i as int].0));
        upsert_group(&mut inner, k, ps);
        let ghost iv = groups_view(inner@);
        proof {
            lemma_upsert(lv, lkv, iv);
        }
        if p < m {
            res.set(p, (lk, inner));
            assert(languages_view(res@) =~= upsert(lv, lkv, iv));
        } else {
            res.push((lk, inner));
            assert(languages_view(res@) =~= upsert(lv, lkv, iv));
        }
        assert forall|j: int| 0 <= j < languages_view(res@).len() implies keys_unique(
            #[trigger] languages_view(res@)[j].1,
        ) by {
            if j != p {
                assert(languages_view(res@)[j] == lv[j]);
            }
        }
        i += 1;
    }
    assert(gv.take(n as int) =~= gv);
    res
}

/// A copy of a sequence of warnings.
fn copy_warnings(s: &Vec<Warning>) -> (res: Vec<Warning>)
    ensures
        warnings_view(res@) == warnings_view(s@),
{
    let mut res: Vec<Warning> = Vec::new();
    let n = s.len();
    let mut i: usize = 0;
    while i < n
        invariant
            n == s.len(),
            i <= n,
            warnings_view(res@) == warnings_view(s@).take(i as int),
        decreases n - i,
    {
        let w = match &s[i] {
            Warning::IdentifierConflict(x) => Warning::IdentifierConflict(x.clone()),
            Warning::MessageTermConflict(x) => Warning::MessageTermConflict(x.clone()),
            Warning::InvalidMessageReference(x) => Warning::InvalidMessageReference(x.clone()),
            Warning::InvalidTermReference(x) => Warning::InvalidTermReference(x.clone()),
            Warning::MissingTranslation(x) => Warning::MissingTranslation(x.clone()),
            Warning::SuperfluousTranslation(x) => Warning::SuperfluousTranslation(x.clone()),
        };
        let ghost before = warnings_view(res@);
        res.push(w);
        assert(warnings_view(res@) =~= before.push(warnings_view(s@)[i as int]));
        assert(warnings_view(s@).take(i + 1) =~= warnings_view(s@).take(i as int).push(warnings_view(s@)[i as int]));
        i += 1;
    }
    assert(warnings_view(s@).take(n as int) =~= warnings_view(s@));
    res
}

impl IntegrityChecks {
    /// The checked paths, in order.
    pub fn paths(&self) -> (res: Vec<String>)
        ensures
            views(res@) == checked_paths(checks_view(self.entries@)),
    {
        let mut res: Vec<String> = Vec::new();
        let n = self.entries.len();
        let mut i: usize = 0;
        while i < n
            invariant
                n == self.entries.len(),
                i <= n,
                views(res@) == checked_paths(checks_view(self.entries@)).take(i as int),
            decreases n - i,
        {
            let ghost before = views(res@);
            res.push(self.entries[i].0.clone());
            assert(views(res@) =~= before.push(self.entries@[i as int].0@));
            assert(checked_paths(checks_view(self.entries@)).take(i + 1) =~= checked_paths(
                checks_view(self.entries@),
            ).take(i as int).push(self.entries@[i as int].0@));
            i += 1;
        }
        assert(checked_paths(checks_view(self.entries@)).take(n as int) =~= checked_paths(
            checks_view(self.entries@),
        ));
        res
    }
}

impl Analysis {
    #[verifier::type_invariant]
    spec fn keys_distinct(self) -> bool {
        &&& keys_unique(groups_view(self.locales@))
        &&& keys_unique(languages_view(self.languages@))
        &&& inner_keys_unique(languages_view(self.languages@))
    }

    /// The analysis of the given checks: the checked files grouped by the
    /// locale their names give, and those groups by language.
    pub fn from(checks: IntegrityChecks) -> (res: Analysis)
        ensures
            res@.checks == checks_view(checks.entries@),
            res@.locales == grouped_by_locale(checked_paths(checks_view(checks.entries@))),
            res@.languages == grouped_by_language(res@.locales),
    {
        let paths = checks.paths();
        let locales = group_by_locale(&paths);
        let languages = group_by_language(&locales);
        Analysis { checks, locales, languages }
    }

    /// The checked paths, in order.
    pub fn paths(&self) -> (res: Vec<String>)
        ensures
            views(res@) == checked_paths(self@.checks),
    {
        self.checks.paths()
    }

    /// The warnings of the checked file `path`, which must be one of them.
    pub fn checks(&self, path: &str) -> (res: &Vec<Warning>)
        requires
            warnings_of(self@.checks, path@) is Some,
        ensures
            warnings_of(self@.checks, path@) == Some(warnings_view(res@)),
    {
        let n = self.checks.entries.len();
        let ghost c = self@.checks;
        let mut i: usize = 0;
        assert(c.skip(0) =~= c);
        while i < n
            invariant
                n == self.checks.entries.len(),
                c == checks_view(self.checks.entries@),
                i <= n,
                warnings_of(c, path@) == warnings_of(c.skip(i as int), path@),
                warnings_of(c, path@) is Some,
            decreases n - i,
        {
            assert(c.skip(i as int)[0] == c[i as int]);
            if paths_equal(self.checks.entries[i].0.as_str(), path) {
                return &self.checks.entries[i].1;
            }
            assert(c.skip(i as int).drop_first() =~= c.skip(i + 1));
            i += 1;
        }
        assert(c.skip(n as int).len() == 0);
        &self.checks.entries[0].1
    }

    /// The warnings of the checked file `path`; `None` when it was not
    /// checked.
    pub fn checks_of(&self, path: &str) -> (res: Option<&Vec<Warning>>)
        ensures
            match res {
                Some(w) => warnings_of(self@.checks, path@) == Some(warnings_view(w@)),
                None => warnings_of(self@.checks, path@) is None,
            },
    {
        if self.has_checks(path) {
            Some(self.checks(path))
        } else {
            None
        }
    }

    /// Whether the file `path` was checked.
    pub fn has_checks(&self, path: &str) -> (res: bool)
        ensures
            res == (warnings_of(self@.checks, path@) is Some),
    {
        let n = self.checks.entries.len();
        let ghost c = self@.checks;
        let mut i: usize = 0;
        assert(c.skip(0) =~= c);
        while i < n
            invariant
                n == self.checks.entries.len(),
                c == checks_view(self.checks.entries@),
                i <= n,
                warnings_of(c, path@) == warnings_of(c.skip(i as int), path@),
            decreases n - i,
        {
            assert(c.skip(i as int)[0] == c[i as int]);
            if paths_equal(self.checks.entries[i].0.as_str(), path) {
                return true;
            }
            assert(c.skip(i as int).drop_first() =~= c.skip(i + 1));
            i += 1;
        }
        false
    }

    /// The files grouped by language, then by locale.
    pub fn paths_by_locale_by_language(&self) -> (res: &Vec<(Validated<String>, Vec<(Validated<LanguageId>, Vec<String>)>)>)
        ensures
            languages_view(res@) == self@.languages,
    {
        &self.languages
    }

    /// The files of one language, grouped by locale; the language must be
    /// one of the analysis.
    pub fn paths_by_locale(&self, language: &Validated<String>) -> (res: &Vec<(Validated<LanguageId>, Vec<String>)>)
        requires
            has_key(self@.languages, validated_text_view(*language)),
        ensures
            lookup(self@.languages, validated_text_view(*language)) == Some(groups_view(res@)),
    {
        proof {
            use_type_invariant(self);
        }
        let ghost lv = self@.languages;
        let ghost k = validated_text_view(*language);
        let m = self.languages.len();
        let mut p: usize = 0;
        while p < m
            invariant
                m == self.languages.len(),
                lv == languages_view(self.languages@),
                p <= m,
                keys_unique(lv),
                has_key(lv, k),
                k == validated_text_view(*language),
                forall|j: int| 0 <= j < p ==> (#[trigger] lv[j]).0 != k,
            decreases m - p,
        {
            assert(lv[p as int] == (validated_text_view(self.languages@[p as int].0), groups_view(self.languages@[p as int].1@)));
            if same_validated(&self.languages[p].0, language) {
                proof {
                    lemma_key_pos(lv, k, p as int);
                }
                return &self.languages[p].1;
            }
            p += 1;
        }
        assert(false);
        &self.languages[0].1
    }
}

/// Every checked path has warnings.
pub proof fn lemma_checked_path_found(c: Seq<(Seq<char>, Seq<WarningModel>)>, p: Seq<char>)
    requires
        checked_paths(c).contains(p),
    ensures
        warnings_of(c, p) is Some,
    decreases c.len(),
{
    let i = choose|i: int| 0 <= i < checked_paths(c).len() && checked_paths(c)[i] == p;
    if i > 0 && !same_path(c[0].0, p) {
        assert(checked_paths(c.drop_first())[i - 1] == p);
        lemma_checked_path_found(c.drop_first(), p);
    }
}

/// The position of a warning's kind in the order the kinds are declared.
pub open spec fn warning_rank(w: WarningModel) -> int {
    match w {
        WarningModel::IdentifierConflict(_) => 0,
        WarningModel::MessageTermConflict(_) => 1,
        WarningModel::InvalidMessageReference(_) => 2,
        WarningModel::InvalidTermReference(_) => 3,
        WarningModel::MissingTranslation(_) => 4,
        WarningModel::SuperfluousTranslation(_) => 5,
    }
}

/// The order of warnings: by kind, then by the value they are about.
pub open spec fn warning_order(a: WarningModel, b: WarningModel) -> int {
    if warning_rank(a) < warning_rank(b) {
        -1
    } else if warning_rank(a) > warning_rank(b) {
        1
    } else {
        text_order(value_text(a), value_text(b))
    }
}

/// One warning sorts after another.
pub open spec fn warning_after() -> spec_fn(WarningModel, WarningModel) -> bool {
    |y: WarningModel, x: WarningModel| warning_order(y, x) > 0
}

/// The category of the warning before position `i`, empty at the start.
pub open spec fn previous_category(ws: Seq<WarningModel>, i: int) -> Seq<char> {
    if i == 0 {
        Seq::empty()
    } else {
        category_text(ws[i - 1])
    }
}

/// The line of the warning at `i`: the category and the value where the
/// category changes, else the value under the one before.
pub open spec fn check_line(ws: Seq<WarningModel>, i: int) -> Seq<char> {
    let cat = category_text(ws[i]);
    if cat != previous_category(ws, i) {
        "    "@ + cat + ": "@ + value_text(ws[i]) + "\n"@
    } else {
        "    "@ + spaces(cat.len()) + "  "@ + value_text(ws[i]) + "\n"@
    }
}

/// The lines of the first `n` warnings.
pub open spec fn check_lines(ws: Seq<WarningModel>, n: nat) -> Seq<char>
    decreases n,
{
    if n == 0 {
        Seq::empty()
    } else {
        check_lines(ws, (n - 1) as nat) + check_line(ws, n - 1)
    }
}

/// The report of one file: a title line with the path (` - Ok` when it
/// has no warning), then its warnings in order.
pub open spec fn check_text(title: Seq<char>, path: Seq<char>, ws: Seq<WarningModel>) -> Seq<char> {
    let sorted = insertion_sorted(ws, warning_after());
    title + " "@ + path + (if ws.len() == 0 {
        " - Ok"@
    } else {
        Seq::empty()
    }) + "\n"@ + check_lines(sorted, sorted.len())
}

/// The checked paths other than the reference, in the order of paths.
pub open spec fn target_paths_of(m: AnalysisModel, reference: Seq<char>) -> Seq<Seq<char>> {
    insertion_sorted(
        crate::settings::without_path(checked_paths(m.checks), reference),
        text_path_after(),
    )
}

/// The report of one target file.
pub open spec fn target_text(m: AnalysisModel) -> spec_fn(Seq<char>) -> Seq<char> {
    |p: Seq<char>| check_text("Target:"@, p, warnings_of(m.checks, p).unwrap())
}

/// The report of an analysis: the reference file, then the other checked
/// files in the order of paths.
pub open spec fn analysis_report(m: AnalysisModel, reference: Seq<char>) -> Seq<char> {
    check_text("Reference:"@, reference, warnings_of(m.checks, reference).unwrap())
        + concat_texts(target_paths_of(m, reference), target_text(m))
}

/// The order of two warnings.
fn compare_warnings(a: &Warning, b: &Warning) -> (res: i8)
    ensures
        res as int == warning_order(a@, b@),
{
    let ra = warning_position(a);
    let rb = warning_position(b);
    if ra < rb {
        -1
    } else if ra > rb {
        1
    } else {
        compare_text(a.value_str(), b.value_str())
    }
}

/// The position of a warning's kind.
fn warning_position(w: &Warning) -> (res: u8)
    ensures
        res as int == warning_rank(w@),
{
    match w {
        Warning::IdentifierConflict(_) => 0,
        Warning::MessageTermConflict(_) => 1,
        Warning::InvalidMessageReference(_) => 2,
        Warning::InvalidTermReference(_) => 3,
        Warning::MissingTranslation(_) => 4,
        Warning::SuperfluousTranslation(_) => 5,
    }
}

/// The warnings sorted by kind and value.
fn sort_warnings(warnings: Vec<Warning>) -> (res: Vec<Warning>)
    ensures
        warnings_view(res@) == insertion_sorted(warnings_view(warnings@), warning_after()),
{
    let ghost wv = warnings_view(warnings@);
    let mut res: Vec<Warning> = Vec::new();
    let n = warnings.len();
    let mut i: usize = 0;
    assert(warnings_view(res@) =~= insertion_sorted(wv.take(0), warning_after()));
    let mut rest = warnings;
    let ghost all = rest@;
    while i < n
        invariant
            n == all.len(),
            i <= n,
            wv == warnings_view(all),
            rest@ == all.skip(i as int),
            warnings_view(res@) == insertion_sorted(wv.take(i as int), warning_after()),
        decreases n - i,
    {
        let ghost s = warnings_view(res@);
        assert(rest@.len() > 0);
        let x = rest.remove(0);
        assert(x == all[i as int]);
        assert(rest@ =~= all.skip(i + 1));
        assert(wv.take(i + 1).drop_last() =~= wv.take(i as int));
        assert(wv.take(i + 1).last() == x@);
        let m = res.len();
        let mut p: usize = 0;
        while p < m
            invariant
                m == res.len(),
                s == warnings_view(res@),
                p <= m,
                forall|j: int| 0 <= j < p ==> !(warning_after())(#[trigger] s[j], x@),
            ensures
                p <= m,
                forall|j: int| 0 <= j < p ==> !(warning_after())(#[trigger] s[j], x@),
                p < m ==> (warning_after())(s[p as int], x@),
            decreases m - p,
        {
            if compare_warnings(&res[p], &x) > 0 {
                break;
            }
            p += 1;
        }
        proof {
            lemma_insert_before_at(s, x@, warning_after(), p as int);
        }
        let ghost xv = x@;
        res.insert(p, x);
        assert(warnings_view(res@) =~= s.take(p as int) + seq![xv] + s.skip(p as int));
        i += 1;
    }
    assert(wv.take(n as int) =~= wv);
    res
}

/// Whether two texts are the same.
fn same_str(a: &str, b: &str) -> (res: bool)
    ensures
        res == (a@ == b@),
{
    let c = compare_text(a, b);
    proof {
        crate::order::lemma_text_order_zero(a@, b@);
    }
    c == 0
}

/// Appends the report of one file.
fn output_check(out: &mut String, title: &str, path: &str, warnings: &Vec<Warning>)
    ensures
        final(out)@ == old(out)@ + check_text(title@, path@, warnings_view(warnings@)),
{
    let ghost start = out@;
    let sorted = sort_warnings(copy_warnings(warnings));
    let ghost sv = warnings_view(sorted@);
    proof {
        reveal_strlit(" ");
        reveal_strlit(" - Ok");
        reveal_strlit("\n");
        crate::sorting::lemma_insertion_sorted_len(warnings_view(warnings@), warning_after());
    }
    out.append(title);
    out.append(" ");
    out.append(path);
    if warnings.len() == 0 {
        out.append(" - Ok");
    }
    out.append("\n");
    let ghost head = out@;
    assert(head == start + title@ + " "@ + path@ + (if warnings_view(warnings@).len() == 0 {
        " - Ok"@
    } else {
        Seq::empty()
    }) + "\n"@);
    let mut current = String::new();
    let n = sorted.len();
    let mut i: usize = 0;
    assert(head + check_lines(sv, 0) =~= head);
    while i < n
        invariant
            n == sorted.len(),
            i <= n,
            sv == warnings_view(sorted@),
            out@ == head + check_lines(sv, i as nat),
            current@ == previous_category(sv, i as int),
        decreases n - i,
    {
        proof {
            reveal_strlit("    ");
            reveal_strlit(": ");
            reveal_strlit("  ");
            reveal_strlit("\n");
        }
        let ghost before = out@;
        let c = &sorted[i];
        assert(sv[i as int] == c@);
        let cat = c.category_str();
        if !same_str(current.as_str(), cat) {
            out.append("    ");
            out.append(cat);
            out.append(": ");
            out.append(c.value_str());
            out.append("\n");
            current = String::from_str(cat);
        } else {
            out.append("    ");
            append_spaces(out, cat.unicode_len());
            out.append("  ");
            out.append(c.value_str());
            out.append("\n");
        }
        assert(out@ =~= before + check_line(sv, i as int));
        assert(check_lines(sv, (i + 1) as nat) == check_lines(sv, i as nat) + check_line(sv, i as int));
        assert(previous_category(sv, i + 1) == category_text(sv[i as int]));
        i += 1;
    }
    assert(out@ =~= start + check_text(title@, path@, warnings_view(warnings@)));
}

/// Renders the analysis as text, the reference file first.
pub struct AnalysisRenderer {
    reference: String,
    analysis: Analysis,
}

impl View for AnalysisRenderer {
    type V = (Seq<char>, AnalysisModel);

    closed spec fn view(&self) -> (Seq<char>, AnalysisModel) {
        (self.reference@, self.analysis@)
    }
}

impl AnalysisRenderer {
    /// A renderer of `analysis` with `reference` as the reference file.
    pub fn new(reference: &str, analysis: Analysis) -> (res: AnalysisRenderer)
        ensures
            res@ == (reference@, analysis@),
    {
        AnalysisRenderer { reference: String::from_str(reference), analysis }
    }

    /// The report: the reference file, then each other checked file in the
    /// order of paths, each with its warnings. The reference must be one of
    /// the checked files.
    pub fn render(&self) -> (res: String)
        requires
            warnings_of(self@.1.checks, self@.0) is Some,
        ensures
            res@ == analysis_report(self@.1, self@.0),
    {
        let ghost m = self.analysis@;
        let reference = self.reference.as_str();
        let mut out = String::new();
        output_check(&mut out, "Reference:", reference, self.analysis.checks(reference));
        proof {
            reveal_strlit("Reference:");
            reveal_strlit("Target:");
        }
        let ghost head = out@;
        let paths = self.analysis.paths();
        let others = crate::settings::without_reference(&paths, reference);
        let sorted = crate::settings::sort_paths(&others);
        let ghost tv = views(sorted@);
        assert(tv == target_paths_of(m, reference@));
        proof {
            crate::settings::lemma_without_path_contains(checked_paths(m.checks), reference@);
            crate::sorting::lemma_insertion_sorted_contains(views(others@), text_path_after());
        }
        let n = sorted.len();
        let mut i: usize = 0;
        assert(head + concat_texts(tv.take(0), target_text(m)) =~= head);
        while i < n
            invariant
                n == sorted.len(),
                i <= n,
                tv == views(sorted@),
                m == self.analysis@,
                tv == target_paths_of(m, self.reference@),
                forall|j: int| 0 <= j < tv.len() ==> views(others@).contains(#[trigger] tv[j]),
                forall|j: int| 0 <= j < views(others@).len() ==> checked_paths(m.checks).contains(#[trigger] views(others@)[j]),
                out@ == head + concat_texts(tv.take(i as int), target_text(m)),
            decreases n - i,
        {
            let ghost before = out@;
            let p = sorted[i].as_str();
            assert(tv[i as int] == p@);
            proof {
                let k = choose|k: int| 0 <= k < views(others@).len() && views(others@)[k] == tv[i as int];
                assert(checked_paths(m.checks).contains(views(others@)[k]));
                lemma_checked_path_found(m.checks, p@);
            }
            output_check(&mut out, "Target:", p, self.analysis.checks(p));
            assert(tv.take(i + 1).drop_last() =~= tv.take(i as int));
            assert(tv.take(i + 1).last() == p@);
            assert(out@ =~= head + concat_texts(tv.take(i + 1), target_text(m)));
            i += 1;
        }
        assert(tv.take(n as int) =~= tv);
        out
    }

    /// The report, or `None` when the reference is not among the checked
    /// files.
    pub fn try_render(&self) -> (res: Option<String>)
        ensures
            match res {
                Some(r) => warnings_of(self@.1.checks, self@.0) is Some && r@ == analysis_report(self@.1, self@.0),
                None => warnings_of(self@.1.checks, self@.0) is None,
            },
    {
        if self.analysis.has_checks(self.reference.as_str()) {
            Some(self.render())
        } else {
            None
        }
    }
}

} // verus!
