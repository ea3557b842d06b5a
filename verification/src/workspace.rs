//! The input of an audit: the Fluent files found, the canonical and primary
//! locales, and the Rust files to scan.
use vstd::prelude::*;
use crate::assoc::{dedup, lemma_dedup};
use crate::document::{FileModel, FluentFile, RustFile};
use crate::locale::{
    contains_locale, contains_root, copy_locales, locales_view, root_of, roots_view, LanguageRoot,
    Locale, LocaleModel, RootModel,
};
use crate::paths::{compare_paths, path_order};
use crate::sorting::{insert_before, insertion_sorted, lemma_insert_before_at};

verus! {

/// A workspace, as views.
pub struct WorkspaceModel {
    pub fluent_files: Seq<FileModel>,
    pub canonical: LocaleModel,
    pub primaries: Seq<LocaleModel>,
    pub rust_files: Seq<Seq<char>>,
}

/// The files and settings an audit works on.
pub struct Workspace {
    fluent_files: Vec<FluentFile>,
    canonical: Locale,
    primaries: Vec<Locale>,
    rust_files: Vec<RustFile>,
}

/// The views of a sequence of Fluent files.
pub open spec fn files_view(s: Seq<FluentFile>) -> Seq<FileModel> {
    s.map_values(|f: FluentFile| f@)
}

/// The views of a sequence of Rust files.
pub open spec fn rust_files_view(s: Seq<RustFile>) -> Seq<Seq<char>> {
    s.map_values(|f: RustFile| f@)
}

impl View for Workspace {
    type V = WorkspaceModel;

    closed spec fn view(&self) -> WorkspaceModel {
        WorkspaceModel {
            fluent_files: files_view(self.fluent_files@),
            canonical: self.canonical@,
            primaries: locales_view(self.primaries@),
            rust_files: rust_files_view(self.rust_files@),
        }
    }
}

/// The locales of a sequence of files, in order.
pub open spec fn locales_of_files(files: Seq<FileModel>) -> Seq<LocaleModel> {
    files.map_values(|f: FileModel| f.locale)
}

/// The roots of a sequence of locales, in order.
pub open spec fn roots_of_locales(ls: Seq<LocaleModel>) -> Seq<RootModel> {
    ls.map_values(|l: LocaleModel| root_of(l))
}

/// The locales among `ls` whose root is `r`, in order.
pub open spec fn locales_of_root(ls: Seq<LocaleModel>, r: RootModel) -> Seq<LocaleModel>
    decreases ls.len(),
{
    if ls.len() == 0 {
        Seq::empty()
    } else {
        let rest = locales_of_root(ls.drop_last(), r);
        if root_of(ls.last()) == r { rest.push(ls.last()) } else { rest }
    }
}

/// The files of locale `l`, in order.
pub open spec fn files_of_locale(files: Seq<FileModel>, l: LocaleModel) -> Seq<FileModel>
    decreases files.len(),
{
    if files.len() == 0 {
        Seq::empty()
    } else {
        let rest = files_of_locale(files.drop_last(), l);
        if files.last().locale == l { rest.push(files.last()) } else { rest }
    }
}

/// One file sorts after another when its path does.
pub open spec fn path_after() -> spec_fn(FileModel, FileModel) -> bool {
    |y: FileModel, x: FileModel| path_order(y.path, x.path) > 0
}

/// The files in the order of their paths; files with equal paths keep
/// their order.
pub open spec fn sorted_by_path(s: Seq<FileModel>) -> Seq<FileModel> {
    insertion_sorted(s, path_after())
}

/// Inserts `x` before the first file whose path sorts after its own.
fn insert_file_by_path(files: &mut Vec<FluentFile>, x: FluentFile)
    ensures
        files_view(final(files)@) == insert_before(files_view(old(files)@), x@, path_after()),
{
    let ghost s = files_view(files@);
    let n = files.len();
    let mut p: usize = 0;
    while p < n
        invariant
            n == files.len(),
            s == files_view(files@),
            p <= n,
            forall|j: int| 0 <= j < p ==> !(path_after())(#[trigger] s[j], x@),
        ensures
            p <= n,
            forall|j: int| 0 <= j < p ==> !(path_after())(#[trigger] s[j], x@),
            p < n ==> (path_after())(s[p as int], x@),
        decreases n - p,
    {
        let c = compare_paths(files[p].path().as_str(), x.path().as_str());
        if c > 0 {
            break;
        }
        p += 1;
    }
    proof {
        lemma_insert_before_at(s, x@, path_after(), p as int);
    }
    let ghost xv = x@;
    files.insert(p, x);
    assert(files_view(files@) =~= s.take(p as int) + seq![xv] + s.skip(p as int));
}

impl Workspace {
    /// The workspace of the given files and settings.
    pub fn new(fluent_files: Vec<FluentFile>, canonical: Locale, primaries: Vec<Locale>, rust_files: Vec<RustFile>) -> (res: Workspace)
        ensures
            res@ == (WorkspaceModel {
                fluent_files: files_view(fluent_files@),
                canonical: canonical@,
                primaries: locales_view(primaries@),
                rust_files: rust_files_view(rust_files@),
            }),
    {
        Workspace { fluent_files, canonical, primaries, rust_files }
    }

    /// A copy of this workspace.
    pub fn copy(&self) -> (res: Workspace)
        ensures
            res@ == self@,
    {
        let mut files: Vec<FluentFile> = Vec::new();
        let n = self.fluent_files.len();
        let mut i: usize = 0;
        while i < n
            invariant
                n == self.fluent_files.len(),
                i <= n,
                files.len() == i,
                forall|j: int| 0 <= j < i ==> (#[trigger] files@[j])@ == self.fluent_files@[j]@,
            decreases n - i,
        {
            files.push(self.fluent_files[i].copy());
            i += 1;
        }
        let mut rust: Vec<RustFile> = Vec::new();
        let m = self.rust_files.len();
        let mut k: usize = 0;
        while k < m
            invariant
                m == self.rust_files.len(),
                k <= m,
                rust.len() == k,
                forall|j: int| 0 <= j < k ==> (#[trigger] rust@[j])@ == self.rust_files@[j]@,
            decreases m - k,
        {
            rust.push(self.rust_files[k].copy());
            k += 1;
        }
        let res = Workspace {
            fluent_files: files,
            canonical: self.canonical.copy(),
            primaries: copy_locales(&self.primaries),
            rust_files: rust,
        };
        assert(res@.fluent_files =~= self@.fluent_files);
        assert(res@.rust_files =~= self@.rust_files);
        res
    }

    /// All the Fluent files.
    pub fn fluent_files(&self) -> (res: &Vec<FluentFile>)
        ensures
            files_view(res@) == self@.fluent_files,
    {
        &self.fluent_files
    }

    /// The locales of the Fluent files, each once, in the order first met.
    pub fn locales(&self) -> (res: Vec<Locale>)
        ensures
            locales_view(res@) == dedup(locales_of_files(self@.fluent_files)),
            locales_view(res@).no_duplicates(),
            forall|l: LocaleModel| locales_view(res@).contains(l) <==> locales_of_files(self@.fluent_files).contains(l),
    {
        let ghost fl = locales_of_files(self@.fluent_files);
        let mut res: Vec<Locale> = Vec::new();
        let n = self.fluent_files.len();
        let mut i: usize = 0;
        assert(locales_view(res@) =~= dedup(fl.take(0)));
        while i < n
            invariant
                n == self.fluent_files.len(),
                i <= n,
                fl == locales_of_files(self@.fluent_files),
                locales_view(res@) == dedup(fl.take(i as int)),
            decreases n - i,
        {
            let ghost before = locales_view(res@);
            assert(fl.take(i + 1).drop_last() =~= fl.take(i as int));
            assert(fl.take(i + 1).last() == self.fluent_files@[i as int]@.locale);
            let l = self.fluent_files[i].locale();
            if !contains_locale(&res, l) {
                res.push(l.copy());
                assert(locales_view(res@) =~= before.push(l@));
            }
            i += 1;
        }
        assert(fl.take(n as int) =~= fl);
        proof { lemma_dedup(fl); }
        res
    }

    /// The language roots of the Fluent files, each once, in the order first
    /// met.
    pub fn language_roots(&self) -> (res: Vec<LanguageRoot>)
        ensures
            roots_view(res@) == dedup(roots_of_locales(locales_of_files(self@.fluent_files))),
            roots_view(res@).no_duplicates(),
            forall|r: RootModel| roots_view(res@).contains(r) <==> roots_of_locales(locales_of_files(self@.fluent_files)).contains(r),
    {
        let ghost fr = roots_of_locales(locales_of_files(self@.fluent_files));
        let mut res: Vec<LanguageRoot> = Vec::new();
        let n = self.fluent_files.len();
        let mut i: usize = 0;
        assert(roots_view(res@) =~= dedup(fr.take(0)));
        while i < n
            invariant
                n == self.fluent_files.len(),
                i <= n,
                fr == roots_of_locales(locales_of_files(self@.fluent_files)),
                roots_view(res@) == dedup(fr.take(i as int)),
            decreases n - i,
        {
            let ghost before = roots_view(res@);
            assert(fr.take(i + 1).drop_last() =~= fr.take(i as int));
            assert(fr.take(i + 1).last() == root_of(self.fluent_files@[i as int]@.locale));
            let r = self.fluent_files[i].language_root();
            if !contains_root(&res, &r) {
                res.push(r);
                assert(roots_view(res@) =~= before.push(root_of(self.fluent_files@[i as int]@.locale)));
            }
            i += 1;
        }
        assert(fr.take(n as int) =~= fr);
        proof { lemma_dedup(fr); }
        res
    }

    /// The locales of the Fluent files whose root is `root`, one per file,
    /// in file order.
    pub fn locales_by_language_root(&self, root: &LanguageRoot) -> (res: Vec<Locale>)
        ensures
            locales_view(res@) == locales_of_root(locales_of_files(self@.fluent_files), root@),
    {
        let ghost fl = locales_of_files(self@.fluent_files);
        let mut res: Vec<Locale> = Vec::new();
        let n = self.fluent_files.len();
        let mut i: usize = 0;
        assert(locales_view(res@) =~= locales_of_root(fl.take(0), root@));
        while i < n
            invariant
                n == self.fluent_files.len(),
                i <= n,
                fl == locales_of_files(self@.fluent_files),
                locales_view(res@) == locales_of_root(fl.take(i as int), root@),
            decreases n - i,
        {
            let ghost before = locales_view(res@);
            assert(fl.take(i + 1).drop_last() =~= fl.take(i as int));
            assert(fl.take(i + 1).last() == self.fluent_files@[i as int]@.locale);
            if self.fluent_files[i].language_root().same_as(root) {
                res.push(self.fluent_files[i].locale().copy());
                assert(locales_view(res@) =~= before.push(self.fluent_files@[i as int]@.locale));
            }
            i += 1;
        }
        assert(fl.take(n as int) =~= fl);
        res
    }

    /// The Fluent files of `locale`, sorted by path.
    pub fn fluent_files_by_locale(&self, locale: &Locale) -> (res: Vec<FluentFile>)
        ensures
            files_view(res@) == sorted_by_path(files_of_locale(self@.fluent_files, locale@)),
    {
        let ghost fv = self@.fluent_files;
        let mut res: Vec<FluentFile> = Vec::new();
        let n = self.fluent_files.len();
        let mut i: usize = 0;
        assert(files_view(res@) =~= sorted_by_path(files_of_locale(fv.take(0), locale@)));
        while i < n
            invariant
                n == self.fluent_files.len(),
                i <= n,
                fv == self@.fluent_files,
                files_view(res@) == sorted_by_path(files_of_locale(fv.take(i as int), locale@)),
            decreases n - i,
        {
            let ghost prev = files_of_locale(fv.take(i as int), locale@);
            assert(fv.take(i + 1).drop_last() =~= fv.take(i as int));
            assert(fv.take(i + 1).last() == self.fluent_files@[i as int]@);
            if self.fluent_files[i].locale().same_as(locale) {
                let ghost grown = prev.push(self.fluent_files@[i as int]@);
                assert(grown.drop_last() =~= prev);
                insert_file_by_path(&mut res, self.fluent_files[i].copy());
            }
            i += 1;
        }
        assert(fv.take(n as int) =~= fv);
        res
    }

    /// The canonical locale.
    pub fn canonical_locale(&self) -> (res: &Locale)
        ensures
            res@ == self@.canonical,
    {
        &self.canonical
    }

    /// Whether `locale` is the canonical locale.
    pub fn is_canonical_locale(&self, locale: &Locale) -> (res: bool)
        ensures
            res == (locale@ == self@.canonical),
    {
        locale.same_as(&self.canonical)
    }

    /// The primary locales, in order.
    pub fn primary_locales(&self) -> (res: &Vec<Locale>)
        ensures
            locales_view(res@) == self@.primaries,
    {
        &self.primaries
    }

    /// Whether `locale` is a primary locale.
    pub fn is_primary_locale(&self, locale: &Locale) -> (res: bool)
        ensures
            res == self@.primaries.contains(locale@),
    {
        contains_locale(&self.primaries, locale)
    }

    /// The base locales: the primaries, then the canonical locale.
    pub fn base_locales(&self) -> (res: Vec<Locale>)
        ensures
            locales_view(res@) == self@.primaries.push(self@.canonical),
    {
        let mut res = copy_locales(&self.primaries);
        res.push(self.canonical.copy());
        assert(locales_view(res@) =~= self@.primaries.push(self@.canonical));
        res
    }

    /// Whether `locale` is a base locale.
    pub fn is_base_locale(&self, locale: &Locale) -> (res: bool)
        ensures
            res == self@.primaries.push(self@.canonical).contains(locale@),
    {
        let bases = self.base_locales();
        contains_locale(&bases, locale)
    }

    /// The locales of the Fluent files that share the root of `base` but are
    /// not `base`, one per file, in file order.
    pub fn variant_locales(&self, base: &Locale) -> (res: Vec<Locale>)
        ensures
            locales_view(res@) == variants_of(locales_of_files(self@.fluent_files), base@),
    {
        let ghost fl = locales_of_files(self@.fluent_files);
        let base_root = base.language_root();
        let mut res: Vec<Locale> = Vec::new();
        let n = self.fluent_files.len();
        let mut i: usize = 0;
        assert(locales_view(res@) =~= variants_of(fl.take(0), base@));
        while i < n
            invariant
                n == self.fluent_files.len(),
                i <= n,
                base_root@ == root_of(base@),
                fl == locales_of_files(self@.fluent_files),
                locales_view(res@) == variants_of(fl.take(i as int), base@),
            decreases n - i,
        {
            let ghost before = locales_view(res@);
            assert(fl.take(i + 1).drop_last() =~= fl.take(i as int));
            assert(fl.take(i + 1).last() == self.fluent_files@[i as int]@.locale);
            let locale = self.fluent_files[i].locale();
            if base_root.same_as(&locale.language_root()) && !base.same_as(locale) {
                res.push(locale.copy());
                assert(locales_view(res@) =~= before.push(locale@));
            }
            i += 1;
        }
        assert(fl.take(n as int) =~= fl);
        res
    }

    /// The locales of the Fluent files whose root is not that of a base
    /// locale, one per file, in file order.
    pub fn orphan_locales(&self) -> (res: Vec<Locale>)
        ensures
            locales_view(res@) == orphans_of(
                locales_of_files(self@.fluent_files),
                roots_of_locales(self@.primaries.push(self@.canonical)),
            ),
    {
        let ghost fl = locales_of_files(self@.fluent_files);
        let bases = self.base_locales();
        let mut base_roots: Vec<LanguageRoot> = Vec::new();
        let m = bases.len();
        let mut k: usize = 0;
        while k < m
            invariant
                m == bases.len(),
                k <= m,
                base_roots.len() == k,
                forall|j: int| 0 <= j < k ==> (#[trigger] base_roots@[j])@ == root_of(bases@[j]@),
            decreases m - k,
        {
            base_roots.push(bases[k].language_root());
            k += 1;
        }
        let ghost br = roots_of_locales(self@.primaries.push(self@.canonical));
        assert(roots_view(base_roots@) =~= br);
        let mut res: Vec<Locale> = Vec::new();
        let n = self.fluent_files.len();
        let mut i: usize = 0;
        assert(locales_view(res@) =~= orphans_of(fl.take(0), br));
        while i < n
            invariant
                n == self.fluent_files.len(),
                i <= n,
                fl == locales_of_files(self@.fluent_files),
                roots_view(base_roots@) == br,
                locales_view(res@) == orphans_of(fl.take(i as int), br),
            decreases n - i,
        {
            let ghost before = locales_view(res@);
            assert(fl.take(i + 1).drop_last() =~= fl.take(i as int));
            assert(fl.take(i + 1).last() == self.fluent_files@[i as int]@.locale);
            let locale = self.fluent_files[i].locale();
            if !contains_root(&base_roots, &locale.language_root()) {
                res.push(locale.copy());
                assert(locales_view(res@) =~= before.push(locale@));
            }
            i += 1;
        }
        assert(fl.take(n as int) =~= fl);
        res
    }

    /// Whether `locale` is the locale of an orphan file.
    pub fn is_orphan_locale(&self, locale: &Locale) -> (res: bool)
        ensures
            res == orphans_of(
                locales_of_files(self@.fluent_files),
                roots_of_locales(self@.primaries.push(self@.canonical)),
            ).contains(locale@),
    {
        let orphans = self.orphan_locales();
        contains_locale(&orphans, locale)
    }

    /// The Rust files.
    pub fn rust_files(&self) -> (res: &Vec<RustFile>)
        ensures
            rust_files_view(res@) == self@.rust_files,
    {
        &self.rust_files
    }
}

/// The locales among `ls` that share the root of `base` but are not
/// `base`, in order.
pub open spec fn variants_of(ls: Seq<LocaleModel>, base: LocaleModel) -> Seq<LocaleModel>
    decreases ls.len(),
{
    if ls.len() == 0 {
        Seq::empty()
    } else {
        let rest = variants_of(ls.drop_last(), base);
        let l = ls.last();
        if root_of(l) == root_of(base) && l != base { rest.push(l) } else { rest }
    }
}

/// The locales among `ls` whose root is not among `roots`, in order.
pub open spec fn orphans_of(ls: Seq<LocaleModel>, roots: Seq<RootModel>) -> Seq<LocaleModel>
    decreases ls.len(),
{
    if ls.len() == 0 {
        Seq::empty()
    } else {
        let rest = orphans_of(ls.drop_last(), roots);
        if roots.contains(root_of(ls.last())) { rest } else { rest.push(ls.last()) }
    }
}

} // verus!
