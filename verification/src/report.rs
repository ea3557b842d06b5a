//! The text report of an audit: the issues of the workspace, then each
//! language with its base locale and variants, then the orphaned locales.
use vstd::prelude::*;
use crate::identifier::path_text;
use crate::issue::{issue_locale, issues_view, kind_order, kind_rank, subject_text, AuditIssue, IssueModel, Subject, SubjectModel};
use crate::locale::{locale_order, locale_text, locales_view, Locale, LocaleModel, LanguageRoot, RootModel};
use crate::order::{compare_text, text_order};
use crate::paths::{compare_paths, path_order};
use crate::result::AuditResult;
use crate::sorting::{insertion_sorted, lemma_insert_before_at};
use crate::text::{append_padded, append_spaces, concat_texts, padded, spaces};
use crate::workspace::{locales_of_files, orphans_of, roots_of_locales, variants_of, Workspace, WorkspaceModel};

verus! {

/// The order of language roots: a root without a script first, then by
/// language, then by script.
pub open spec fn root_order(a: RootModel, b: RootModel) -> int {
    match (a, b) {
        (RootModel::ImplicitScript(x), RootModel::ImplicitScript(y)) => text_order(x, y),
        (RootModel::ImplicitScript(_), RootModel::Scripted(_, _)) => -1,
        (RootModel::Scripted(_, _), RootModel::ImplicitScript(_)) => 1,
        (RootModel::Scripted(x, s), RootModel::Scripted(y, t)) => if text_order(x, y) != 0 {
            text_order(x, y)
        } else {
            text_order(s, t)
        },
    }
}

/// The order of two language roots.
fn compare_roots(a: &LanguageRoot, b: &LanguageRoot) -> (res: i8)
    ensures
        res as int == root_order(a@, b@),
{
    match (a, b) {
        (LanguageRoot::ImplicitScript(x), LanguageRoot::ImplicitScript(y)) => compare_text(x.as_str(), y.as_str()),
        (LanguageRoot::ImplicitScript(_), LanguageRoot::Scripted(_, _)) => -1,
        (LanguageRoot::Scripted(_, _), LanguageRoot::ImplicitScript(_)) => 1,
        (LanguageRoot::Scripted(x, s), LanguageRoot::Scripted(y, t)) => {
            let c = compare_text(x.as_str(), y.as_str());
            if c != 0 {
                c
            } else {
                compare_text(s.as_str(), t.as_str())
            }
        },
    }
}

/// The position of a subject's kind in the order of declaration.
pub open spec fn subject_rank(s: SubjectModel) -> int {
    match s {
        SubjectModel::FluentFile(_) => 0,
        SubjectModel::RustFile(_) => 1,
        SubjectModel::Locale(_) => 2,
        SubjectModel::Entry(_, _) => 3,
        SubjectModel::LanguageRoot(_) => 4,
    }
}

/// The order of subjects: by kind, then files by path, locales by their
/// subtags, entries by locale then identifier text, roots by root order.
pub open spec fn subject_order(a: SubjectModel, b: SubjectModel) -> int {
    if subject_rank(a) < subject_rank(b) {
        -1
    } else if subject_rank(a) > subject_rank(b) {
        1
    } else {
        match (a, b) {
            (SubjectModel::FluentFile(x), SubjectModel::FluentFile(y)) => path_order(x, y),
            (SubjectModel::RustFile(x), SubjectModel::RustFile(y)) => path_order(x, y),
            (SubjectModel::Locale(x), SubjectModel::Locale(y)) => locale_order(x, y),
            (SubjectModel::Entry(l, i), SubjectModel::Entry(m, j)) => if locale_order(l, m) != 0 {
                locale_order(l, m)
            } else {
                text_order(path_text(i), path_text(j))
            },
            (SubjectModel::LanguageRoot(x), SubjectModel::LanguageRoot(y)) => root_order(x, y),
            _ => 0,
        }
    }
}

/// The position of a subject's kind.
fn subject_position(s: &Subject) -> (res: u8)
    ensures
        res as int == subject_rank(s@),
{
    match s {
        Subject::FluentFile(_) => 0,
        Subject::RustFile(_) => 1,
        Subject::Locale(_) => 2,
        Subject::Entry(_, _) => 3,
        Subject::LanguageRoot(_) => 4,
    }
}

/// The order of two subjects.
pub fn compare_subjects(a: &Subject, b: &Subject) -> (res: i8)
    ensures
        res as int == subject_order(a@, b@),
{
    match (a, b) {
        (Subject::FluentFile(x), Subject::FluentFile(y)) => compare_paths(x.as_str(), y.as_str()),
        (Subject::RustFile(x), Subject::RustFile(y)) => compare_paths(x.as_str(), y.as_str()),
        (Subject::Locale(x), Subject::Locale(y)) => x.compare(y),
        (Subject::Entry(l, i), Subject::Entry(m, j)) => {
            let c = l.compare(m);
            if c != 0 {
                c
            } else {
                let ti = i.to_meta_string();
                let tj = j.to_meta_string();
                compare_text(ti.as_str(), tj.as_str())
            }
        },
        (Subject::LanguageRoot(x), Subject::LanguageRoot(y)) => compare_roots(x, y),
        _ => {
            let ra = subject_position(a);
            let rb = subject_position(b);
            if ra < rb {
                -1
            } else {
                1
            }
        },
    }
}

/// The issues whose locale is `key`, in order.
pub open spec fn issues_with_locale(s: Seq<IssueModel>, key: Option<LocaleModel>) -> Seq<IssueModel>
    decreases s.len(),
{
    if s.len() == 0 {
        Seq::empty()
    } else {
        let rest = issues_with_locale(s.drop_last(), key);
        if issue_locale(s.last()) == key { rest.push(s.last()) } else { rest }
    }
}

/// One issue sorts after another when its kind comes later.
pub open spec fn kind_after() -> spec_fn(IssueModel, IssueModel) -> bool {
    |y: IssueModel, x: IssueModel| kind_rank(y.kind) > kind_rank(x.kind)
}

/// One locale sorts after another in the order of locales.
pub open spec fn locale_after() -> spec_fn(LocaleModel, LocaleModel) -> bool {
    |y: LocaleModel, x: LocaleModel| locale_order(y, x) > 0
}

/// One subject sorts after another in the order of subjects.
pub open spec fn subject_after() -> spec_fn(SubjectModel, SubjectModel) -> bool {
    |y: SubjectModel, x: SubjectModel| subject_order(y, x) > 0
}

/// The line of an issue: its message, indented by 11 spaces.
pub open spec fn issue_line() -> spec_fn(IssueModel) -> Seq<char> {
    |i: IssueModel| spaces(11) + i.message + "\n"@
}

/// The lines of a locale: a header with its title and locale, then its
/// issues by kind; or `- Ok` when it has none.
pub open spec fn locale_lines(title: Seq<char>, l: LocaleModel, issues: Seq<IssueModel>) -> Seq<char> {
    let own = issues_with_locale(issues, Some(l));
    if own.len() == 0 {
        padded(title, 10) + " "@ + locale_text(l) + " - Ok\n"@
    } else {
        padded(title, 10) + " "@ + locale_text(l) + "\n"@ + concat_texts(insertion_sorted(own, kind_after()), issue_line())
    }
}

/// The lines of a language: its language, its base locale, then its
/// variants in the order of locales.
pub open spec fn language_lines(title: Seq<char>, base: LocaleModel, ws: WorkspaceModel, issues: Seq<IssueModel>) -> Seq<char> {
    "Language:  "@ + base.language + "\n"@ + locale_lines(title, base, issues)
        + concat_texts(
            insertion_sorted(variants_of(locales_of_files(ws.fluent_files), base), locale_after()),
            |v: LocaleModel| locale_lines("Variant:"@, v, issues),
        )
}

/// The subjects of the issues, each once up to the order of subjects, in
/// the order first met.
pub open spec fn distinct_subjects(s: Seq<IssueModel>) -> Seq<SubjectModel>
    decreases s.len(),
{
    if s.len() == 0 {
        Seq::empty()
    } else {
        let rest = distinct_subjects(s.drop_last());
        if exists|k: int| 0 <= k < rest.len() && subject_order(rest[k], s.last().subject) == 0 {
            rest
        } else {
            rest.push(s.last().subject)
        }
    }
}

/// The issues whose subject is, in the order of subjects, the same as `s`.
pub open spec fn issues_of_subject(issues: Seq<IssueModel>, s: SubjectModel) -> Seq<IssueModel>
    decreases issues.len(),
{
    if issues.len() == 0 {
        Seq::empty()
    } else {
        let rest = issues_of_subject(issues.drop_last(), s);
        if subject_order(issues.last().subject, s) == 0 { rest.push(issues.last()) } else { rest }
    }
}

/// The lines of the issues that have no locale: for each subject, in the
/// order of subjects, a header and the messages about it.
pub open spec fn workspace_lines(issues: Seq<IssueModel>) -> Seq<char> {
    let ws = issues_with_locale(issues, None);
    concat_texts(
        insertion_sorted(distinct_subjects(ws), subject_after()),
        |s: SubjectModel| "Workspace: "@ + subject_text(s) + "\n"@ + concat_texts(issues_of_subject(ws, s), issue_line()),
    )
}

/// The report: the workspace issues, the canonical language, each primary
/// language, then each orphaned locale.
pub open spec fn report_text(ws: WorkspaceModel, issues: Seq<IssueModel>) -> Seq<char> {
    workspace_lines(issues) + language_lines("Canonical:"@, ws.canonical, ws, issues)
        + concat_texts(ws.primaries, |p: LocaleModel| language_lines("Primary:"@, p, ws, issues))
        + concat_texts(
            orphans_of(locales_of_files(ws.fluent_files), roots_of_locales(ws.primaries.push(ws.canonical))),
            |o: LocaleModel| locale_lines("Orphaned:"@, o, issues),
        )
}

/// What the report is made from.
pub struct RendererModel {
    pub workspace: WorkspaceModel,
    pub issues: Seq<IssueModel>,
}

/// Renders the result of an audit as a text report.
pub struct AnalysisRenderer {
    workspace: Workspace,
    issues: Vec<AuditIssue>,
}

impl View for AnalysisRenderer {
    type V = RendererModel;

    closed spec fn view(&self) -> RendererModel {
        RendererModel { workspace: self.workspace@, issues: issues_view(self.issues@) }
    }
}

/// Copies of the issues whose locale is `key`, in order.
fn copy_issues_with_locale(issues: &Vec<AuditIssue>, key: &Option<Locale>) -> (res: Vec<AuditIssue>)
    ensures
        issues_view(res@) == issues_with_locale(issues_view(issues@), match key {
            Some(l) => Some(l@),
            None => None,
        }),
{
    let ghost kv: Option<LocaleModel> = match key {
        Some(l) => Some(l@),
        None => None,
    };
    let ghost iv = issues_view(issues@);
    let mut res: Vec<AuditIssue> = Vec::new();
    let n = issues.len();
    let mut i: usize = 0;
    assert(issues_view(res@) =~= issues_with_locale(iv.take(0), kv));
    while i < n
        invariant
            n == issues.len(),
            i <= n,
            iv == issues_view(issues@),
            issues_view(res@) == issues_with_locale(iv.take(i as int), kv),
            kv == match key {
                Some(l) => Some(l@),
                None => None::<LocaleModel>,
            },
        decreases n - i,
    {
        let ghost before = issues_view(res@);
        assert(iv.take(i + 1).drop_last() =~= iv.take(i as int));
        assert(iv.take(i + 1).last() == issues@[i as int]@);
        let l = issues[i].locale();
        let same = match (&l, key) {
            (Some(a), Some(b)) => a.same_as(b),
            (None, None) => true,
            _ => false,
        };
        if same {
            res.push(issues[i].copy());
            assert(issues_view(res@) =~= before.push(issues@[i as int]@));
        }
        i += 1;
    }
    assert(iv.take(n as int) =~= iv);
    res
}

/// The issues sorted by kind, issues of the same kind in their order.
fn sort_by_kind(issues: Vec<AuditIssue>) -> (res: Vec<AuditIssue>)
    ensures
        issues_view(res@) == insertion_sorted(issues_view(issues@), kind_after()),
{
    let ghost iv = issues_view(issues@);
    let mut res: Vec<AuditIssue> = Vec::new();
    let n = issues.len();
    let mut i: usize = 0;
    assert(issues_view(res@) =~= insertion_sorted(iv.take(0), kind_after()));
    while i < n
        invariant
            n == issues.len(),
            i <= n,
            iv == issues_view(issues@),
            issues_view(res@) == insertion_sorted(iv.take(i as int), kind_after()),
        decreases n - i,
    {
        let ghost s = issues_view(res@);
        let x = issues[i].copy();
        assert(iv.take(i + 1).drop_last() =~= iv.take(i as int));
        assert(iv.take(i + 1).last() == x@);
        let m = res.len();
        let mut p: usize = 0;
        while p < m
            invariant
                m == res.len(),
                s == issues_view(res@),
                p <= m,
                forall|j: int| 0 <= j < p ==> !(kind_after())(#[trigger] s[j], x@),
            ensures
                p <= m,
                forall|j: int| 0 <= j < p ==> !(kind_after())(#[trigger] s[j], x@),
                p < m ==> (kind_after())(s[p as int], x@),
            decreases m - p,
        {
            if kind_order(*res[p].kind()) > kind_order(*x.kind()) {
                break;
            }
            p += 1;
        }
        proof { lemma_insert_before_at(s, x@, kind_after(), p as int); }
        let ghost xv = x@;
        res.insert(p, x);
        assert(issues_view(res@) =~= s.take(p as int) + seq![xv] + s.skip(p as int));
        i += 1;
    }
    assert(iv.take(n as int) =~= iv);
    res
}

/// The locales sorted in the order of locales, equal locales in their
/// order.
fn sort_locales(locales: Vec<Locale>) -> (res: Vec<Locale>)
    ensures
        locales_view(res@) == insertion_sorted(locales_view(locales@), locale_after()),
{
    let ghost lv = locales_view(locales@);
    let mut res: Vec<Locale> = Vec::new();
    let n = locales.len();
    let mut i: usize = 0;
    assert(locales_view(res@) =~= insertion_sorted(lv.take(0), locale_after()));
    while i < n
        invariant
            n == locales.len(),
            i <= n,
            lv == locales_view(locales@),
            locales_view(res@) == insertion_sorted(lv.take(i as int), locale_after()),
        decreases n - i,
    {
        let ghost s = locales_view(res@);
        let x = locales[i].copy();
        assert(lv.take(i + 1).drop_last() =~= lv.take(i as int));
        assert(lv.take(i + 1).last() == x@);
        let m = res.len();
        let mut p: usize = 0;
        while p < m
            invariant
                m == res.len(),
                s == locales_view(res@),
                p <= m,
                forall|j: int| 0 <= j < p ==> !(locale_after())(#[trigger] s[j], x@),
            ensures
                p <= m,
                forall|j: int| 0 <= j < p ==> !(locale_after())(#[trigger] s[j], x@),
                p < m ==> (locale_after())(s[p as int], x@),
            decreases m - p,
        {
            if res[p].compare(&x) > 0 {
                break;
            }
            p += 1;
        }
        proof { lemma_insert_before_at(s, x@, locale_after(), p as int); }
        let ghost xv = x@;
        res.insert(p, x);
        assert(locales_view(res@) =~= s.take(p as int) + seq![xv] + s.skip(p as int));
        i += 1;
    }
    assert(lv.take(n as int) =~= lv);
    res
}

/// The views of a sequence of subjects.
pub open spec fn subjects_view(s: Seq<Subject>) -> Seq<SubjectModel> {
    s.map_values(|x: Subject| x@)
}

/// The subjects sorted in the order of subjects.
fn sort_subjects(subjects: Vec<Subject>) -> (res: Vec<Subject>)
    ensures
        subjects_view(res@) == insertion_sorted(subjects_view(subjects@), subject_after()),
{
    let ghost sv = subjects_view(subjects@);
    let mut res: Vec<Subject> = Vec::new();
    let n = subjects.len();
    let mut i: usize = 0;
    assert(subjects_view(res@) =~= insertion_sorted(sv.take(0), subject_after()));
    while i < n
        invariant
            n == subjects.len(),
            i <= n,
            sv == subjects_view(subjects@),
            subjects_view(res@) == insertion_sorted(sv.take(i as int), subject_after()),
        decreases n - i,
    {
        let ghost s = subjects_view(res@);
        let x = subjects[i].copy();
        assert(sv.take(i + 1).drop_last() =~= sv.take(i as int));
        assert(sv.take(i + 1).last() == x@);
        let m = res.len();
        let mut p: usize = 0;
        while p < m
            invariant
                m == res.len(),
                s == subjects_view(res@),
                p <= m,
                forall|j: int| 0 <= j < p ==> !(subject_after())(#[trigger] s[j], x@),
            ensures
                p <= m,
                forall|j: int| 0 <= j < p ==> !(subject_after())(#[trigger] s[j], x@),
                p < m ==> (subject_after())(s[p as int], x@),
            decreases m - p,
        {
            if compare_subjects(&res[p], &x) > 0 {
                break;
            }
            p += 1;
        }
        proof { lemma_insert_before_at(s, x@, subject_after(), p as int); }
        let ghost xv = x@;
        res.insert(p, x);
        assert(subjects_view(res@) =~= s.take(p as int) + seq![xv] + s.skip(p as int));
        i += 1;
    }
    assert(sv.take(n as int) =~= sv);
    res
}

/// Appends the lines of the issues, one per issue.
fn append_issue_lines(out: &mut String, issues: &Vec<AuditIssue>)
    ensures
        final(out)@ == old(out)@ + concat_texts(issues_view(issues@), issue_line()),
{
    let ghost start = out@;
    let ghost iv = issues_view(issues@);
    let n = issues.len();
    let mut i: usize = 0;
    assert(start + concat_texts(iv.take(0), issue_line()) =~= start);
    while i < n
        invariant
            n == issues.len(),
            i <= n,
            iv == issues_view(issues@),
            out@ == start + concat_texts(iv.take(i as int), issue_line()),
        decreases n - i,
    {
        let ghost before = out@;
        assert(iv.take(i + 1).drop_last() =~= iv.take(i as int));
        assert(iv.take(i + 1).last() == issues@[i as int]@);
        append_spaces(out, 11);
        out.append(issues[i].message().as_str());
        out.append("\n");
        assert(out@ =~= before + (issue_line())(issues@[i as int]@));
        i += 1;
    }
    assert(iv.take(n as int) =~= iv);
}

impl AnalysisRenderer {
    /// The renderer of an audit result.
    pub fn new(audit_result: &AuditResult) -> (res: AnalysisRenderer)
        ensures
            res@ == (RendererModel { workspace: audit_result@.workspace, issues: audit_result@.issues }),
    {
        let source = audit_result.issues();
        let mut issues: Vec<AuditIssue> = Vec::new();
        let n = source.len();
        let mut i: usize = 0;
        while i < n
            invariant
                n == source.len(),
                i <= n,
                issues.len() == i,
                forall|j: int| 0 <= j < i ==> (#[trigger] issues@[j])@ == source@[j]@,
            decreases n - i,
        {
            issues.push(source[i].copy());
            i += 1;
        }
        assert(issues_view(issues@) =~= issues_view(source@));
        AnalysisRenderer { workspace: audit_result.workspace().copy(), issues }
    }

    /// Appends the lines of a locale.
    fn render_locale(&self, out: &mut String, title: &str, locale: &Locale)
        ensures
            final(out)@ == old(out)@ + locale_lines(title@, locale@, self@.issues),
    {
        let ghost start = out@;
        let key = Some(locale.copy());
        let own = copy_issues_with_locale(&self.issues, &key);
        append_padded(out, title, 10);
        out.append(" ");
        let text = locale.to_text();
        out.append(text.as_str());
        if own.len() == 0 {
            out.append(" - Ok\n");
            assert(out@ =~= start + locale_lines(title@, locale@, self@.issues));
        } else {
            out.append("\n");
            let ghost header = out@;
            let sorted = sort_by_kind(own);
            append_issue_lines(out, &sorted);
            assert(out@ =~= start + locale_lines(title@, locale@, self@.issues));
        }
    }

    /// Appends the lines of a language.
    fn render_language(&self, out: &mut String, title: &str, base: &Locale)
        ensures
            final(out)@ == old(out)@ + language_lines(title@, base@, self@.workspace, self@.issues),
    {
        let ghost start = out@;
        out.append("Language:  ");
        out.append(base.language().as_str());
        out.append("\n");
        self.render_locale(out, title, base);
        let ghost middle = out@;
        let variants = sort_locales(self.workspace.variant_locales(base));
        let ghost vv = locales_view(variants@);
        let ghost f = |v: LocaleModel| locale_lines("Variant:"@, v, self@.issues);
        let n = variants.len();
        let mut i: usize = 0;
        assert(middle + concat_texts(vv.take(0), f) =~= middle);
        while i < n
            invariant
                n == variants.len(),
                i <= n,
                vv == locales_view(variants@),
                f == (|v: LocaleModel| locale_lines("Variant:"@, v, self@.issues)),
                out@ == middle + concat_texts(vv.take(i as int), f),
            decreases n - i,
        {
            let ghost before = out@;
            assert(vv.take(i + 1).drop_last() =~= vv.take(i as int));
            assert(vv.take(i + 1).last() == variants@[i as int]@);
            self.render_locale(out, "Variant:", &variants[i]);
            assert(out@ =~= before + f(variants@[i as int]@));
            i += 1;
        }
        assert(vv.take(n as int) =~= vv);
        assert(out@ =~= start + language_lines(title@, base@, self@.workspace, self@.issues));
    }

    /// Renders the report.
    pub fn render(&self) -> (res: String)
        ensures
            res@ == report_text(self@.workspace, self@.issues),
    {
        let mut out = String::new();
        self.render_workspace(&mut out);
        self.render_language(&mut out, "Canonical:", self.workspace.canonical_locale());
        let ghost after_canonical = out@;
        let primaries = self.workspace.primary_locales();
        let ghost pv = locales_view(primaries@);
        let ghost f = |p: LocaleModel| language_lines("Primary:"@, p, self@.workspace, self@.issues);
        let n = primaries.len();
        let mut i: usize = 0;
        assert(after_canonical + concat_texts(pv.take(0), f) =~= after_canonical);
        while i < n
            invariant
                n == primaries.len(),
                i <= n,
                pv == locales_view(primaries@),
                f == (|p: LocaleModel| language_lines("Primary:"@, p, self@.workspace, self@.issues)),
                out@ == after_canonical + concat_texts(pv.take(i as int), f),
            decreases n - i,
        {
            let ghost before = out@;
            assert(pv.take(i + 1).drop_last() =~= pv.take(i as int));
            assert(pv.take(i + 1).last() == primaries@[i as int]@);
            self.render_language(&mut out, "Primary:", &primaries[i]);
            assert(out@ =~= before + f(primaries@[i as int]@));
            i += 1;
        }
        assert(pv.take(n as int) =~= pv);
        let ghost after_primaries = out@;
        let orphans = self.workspace.orphan_locales();
        let ghost ov = locales_view(orphans@);
        let ghost g = |o: LocaleModel| locale_lines("Orphaned:"@, o, self@.issues);
        let m = orphans.len();
        let mut k: usize = 0;
        assert(after_primaries + concat_texts(ov.take(0), g) =~= after_primaries);
        while k < m
            invariant
                m == orphans.len(),
                k <= m,
                ov == locales_view(orphans@),
                g == (|o: LocaleModel| locale_lines("Orphaned:"@, o, self@.issues)),
                out@ == after_primaries + concat_texts(ov.take(k as int), g),
            decreases m - k,
        {
            let ghost before = out@;
            assert(ov.take(k + 1).drop_last() =~= ov.take(k as int));
            assert(ov.take(k + 1).last() == orphans@[k as int]@);
            self.render_locale(&mut out, "Orphaned:", &orphans[k]);
            assert(out@ =~= before + g(orphans@[k as int]@));
            k += 1;
        }
        assert(ov.take(m as int) =~= ov);
        out
    }

    /// Appends the lines of the issues that have no locale.
    fn render_workspace(&self, out: &mut String)
        ensures
            final(out)@ == old(out)@ + workspace_lines(self@.issues),
    {
        let ghost start = out@;
        let none: Option<Locale> = None;
        let ws = copy_issues_with_locale(&self.issues, &none);
        let ghost wv = issues_view(ws@);
        let mut subjects: Vec<Subject> = Vec::new();
        let n = ws.len();
        let mut i: usize = 0;
        assert(subjects_view(subjects@) =~= distinct_subjects(wv.take(0)));
        while i < n
            invariant
                n == ws.len(),
                i <= n,
                wv == issues_view(ws@),
                subjects_view(subjects@) == distinct_subjects(wv.take(i as int)),
            decreases n - i,
        {
            let ghost before = subjects_view(subjects@);
            assert(wv.take(i + 1).drop_last() =~= wv.take(i as int));
            assert(wv.take(i + 1).last() == ws@[i as int]@);
            let s = ws[i].subject();
            let m = subjects.len();
            let mut k: usize = 0;
            let mut seen = false;
            while k < m
                invariant
                    m == subjects.len(),
                    k <= m,
                    before == subjects_view(subjects@),
                    seen == exists|q: int| 0 <= q < k && subject_order(before[q], s@) == 0,
                decreases m - k,
            {
                let c = compare_subjects(&subjects[k], s);
                assert(subjects@[k as int]@ == before[k as int]);
                if c == 0 {
                    seen = true;
                }
                assert(seen == exists|q: int| 0 <= q < k + 1 && subject_order(before[q], s@) == 0) by {
                    if exists|q: int| 0 <= q < k + 1 && subject_order(before[q], s@) == 0 {
                        let q = choose|q: int| 0 <= q < k + 1 && subject_order(before[q], s@) == 0;
                        if q < k {
                            assert(exists|r: int| 0 <= r < k && subject_order(before[r], s@) == 0);
                        }
                    }
                }
                k += 1;
            }
            if !seen {
                subjects.push(s.copy());
                assert(subjects_view(subjects@) =~= before.push(s@));
            }
            i += 1;
        }
        assert(wv.take(n as int) =~= wv);
        let sorted = sort_subjects(subjects);
        let ghost sv = subjects_view(sorted@);
        let ghost f = |s: SubjectModel| "Workspace: "@ + subject_text(s) + "\n"@ + concat_texts(issues_of_subject(wv, s), issue_line());
        let k = sorted.len();
        let mut j: usize = 0;
        assert(start + concat_texts(sv.take(0), f) =~= start);
        while j < k
            invariant
                k == sorted.len(),
                j <= k,
                n == ws.len(),
                sv == subjects_view(sorted@),
                wv == issues_view(ws@),
                f == (|s: SubjectModel| "Workspace: "@ + subject_text(s) + "\n"@ + concat_texts(issues_of_subject(wv, s), issue_line())),
                out@ == start + concat_texts(sv.take(j as int), f),
            decreases k - j,
        {
            let ghost before = out@;
            assert(sv.take(j + 1).drop_last() =~= sv.take(j as int));
            assert(sv.take(j + 1).last() == sorted@[j as int]@);
            out.append("Workspace: ");
            let text = sorted[j].to_text();
            out.append(text.as_str());
            out.append("\n");
            let mut members: Vec<AuditIssue> = Vec::new();
            let mut q: usize = 0;
            assert(issues_view(members@) =~= issues_of_subject(wv.take(0), sorted@[j as int]@));
            while q < n
                invariant
                    n == ws.len(),
                    q <= n,
                    wv == issues_view(ws@),
                    j < k,
                    k == sorted.len(),
                    issues_view(members@) == issues_of_subject(wv.take(q as int), sorted@[j as int]@),
                decreases n - q,
            {
                let ghost mb = issues_view(members@);
                assert(wv.take(q + 1).drop_last() =~= wv.take(q as int));
                assert(wv.take(q + 1).last() == ws@[q as int]@);
                if compare_subjects(ws[q].subject(), &sorted[j]) == 0 {
                    members.push(ws[q].copy());
                    assert(issues_view(members@) =~= mb.push(ws@[q as int]@));
                }
                q += 1;
            }
            assert(wv.take(n as int) =~= wv);
            append_issue_lines(out, &members);
            assert(out@ =~= before + f(sorted@[j as int]@));
            j += 1;
        }
        assert(sv.take(k as int) =~= sv);
    }
}

} // verus!
