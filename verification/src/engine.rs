//! The audit engine: it gathers the files named by the settings into a
//! workspace and runs every stage of the audit over them.
use vstd::prelude::*;
use crate::config::LingoraToml;
use crate::document::{fluent_file_from, rust_file_from, FileModel, FluentFile, RustFile};
use crate::error::{ErrorModel, LingoraError};
use crate::locale::copy_locales;
use crate::paths::{extension_of, has_extension};
use crate::pipeline::{parsed_models, roled_documents, Pipeline};
use crate::result::{keyed_documents, AuditResult, ResultModel};
use crate::rules::{audit_issues, classification_issues, classify, collected_documents, parse_error_issues};
use crate::text::views;
use crate::workspace::{files_view, rust_files_view, Workspace, WorkspaceModel};

verus! {

/// The views of paths met while looking for files, each with whether it is
/// a file.
pub open spec fn candidates_view(s: Seq<(String, bool)>) -> Seq<(Seq<char>, bool)> {
    s.map_values(|c: (String, bool)| (c.0@, c.1))
}

/// The candidates that are files with extension `ext`, in order.
pub open spec fn collated(candidates: Seq<(Seq<char>, bool)>, ext: Seq<char>) -> Seq<Seq<char>>
    decreases candidates.len(),
{
    if candidates.len() == 0 {
        Seq::empty()
    } else {
        let rest = collated(candidates.drop_last(), ext);
        let c = candidates.last();
        if c.1 && extension_of(c.0) == Some(ext) { rest.push(c.0) } else { rest }
    }
}

/// The paths of the candidates that are files with extension `ext`. The
/// candidates are the configured paths and, for each configured folder,
/// every path beneath it, each with whether it is a file.
pub fn collate_files(candidates: &Vec<(String, bool)>, ext: &str) -> (res: Vec<String>)
    ensures
        views(res@) == collated(candidates_view(candidates@), ext@),
{
    let ghost cv = candidates_view(candidates@);
    let mut res: Vec<String> = Vec::new();
    let n = candidates.len();
    let mut i: usize = 0;
    assert(views(res@) =~= collated(cv.take(0), ext@));
    while i < n
        invariant
            n == candidates.len(),
            i <= n,
            cv == candidates_view(candidates@),
            views(res@) == collated(cv.take(i as int), ext@),
        decreases n - i,
    {
        let ghost before = views(res@);
        assert(cv.take(i + 1).drop_last() =~= cv.take(i as int));
        assert(cv.take(i + 1).last() == (candidates@[i as int].0@, candidates@[i as int].1));
        let (path, is_file) = &candidates[i];
        if *is_file && has_extension(path.as_str(), ext) {
            res.push(path.clone());
            assert(views(res@) =~= before.push(path@));
        }
        i += 1;
    }
    assert(cv.take(n as int) =~= cv);
    res
}

/// The Fluent files at `paths`, or the error of the first that is not one.
pub open spec fn fluent_files_from(paths: Seq<Seq<char>>) -> Result<Seq<FileModel>, ErrorModel>
    decreases paths.len(),
{
    if paths.len() == 0 {
        Ok(Seq::empty())
    } else {
        match fluent_files_from(paths.drop_last()) {
            Err(e) => Err(e),
            Ok(fs) => match fluent_file_from(paths.last(), true) {
                Ok(f) => Ok(fs.push(f)),
                Err(e) => Err(e),
            },
        }
    }
}

/// The Rust files at `paths`, or the error of the first that is not one.
pub open spec fn rust_files_from(paths: Seq<Seq<char>>) -> Result<Seq<Seq<char>>, ErrorModel>
    decreases paths.len(),
{
    if paths.len() == 0 {
        Ok(Seq::empty())
    } else {
        match rust_files_from(paths.drop_last()) {
            Err(e) => Err(e),
            Ok(fs) => match rust_file_from(paths.last(), true) {
                Ok(f) => Ok(fs.push(f)),
                Err(e) => Err(e),
            },
        }
    }
}

/// The Fluent files among the candidates: those with extension `ftl`, each
/// named after a locale.
pub fn collate_fluent_files(candidates: &Vec<(String, bool)>) -> (res: Result<Vec<FluentFile>, LingoraError>)
    ensures
        match fluent_files_from(collated(candidates_view(candidates@), "ftl"@)) {
            Ok(fs) => res matches Ok(files) && files_view(files@) == fs,
            Err(e) => res matches Err(err) && err@ == e,
        },
{
    let paths = collate_files(candidates, "ftl");
    let ghost pv = views(paths@);
    let mut files: Vec<FluentFile> = Vec::new();
    let n = paths.len();
    let mut i: usize = 0;
    assert(pv.take(0) =~= Seq::<Seq<char>>::empty());
    assert(files_view(files@) =~= Seq::<FileModel>::empty());
    while i < n
        invariant
            n == paths.len(),
            i <= n,
            pv == views(paths@),
            pv == collated(candidates_view(candidates@), "ftl"@),
            fluent_files_from(pv.take(i as int)) == Ok::<Seq<FileModel>, ErrorModel>(files_view(files@)),
        decreases n - i,
    {
        assert(pv.take(i + 1).drop_last() =~= pv.take(i as int));
        assert(pv.take(i + 1).last() == paths@[i as int]@);
        match FluentFile::try_from_path(paths[i].as_str(), true) {
            Ok(f) => {
                let ghost before = files_view(files@);
                files.push(f);
                assert(files_view(files@) =~= before.push(files@.last()@));
            },
            Err(e) => {
                assert(fluent_files_from(pv.take(i + 1)) == Err::<Seq<FileModel>, ErrorModel>(e@));
                proof { lemma_fluent_files_from_error(pv, i as int + 1); }
                return Err(e);
            },
        }
        i += 1;
    }
    assert(pv.take(n as int) =~= pv);
    Ok(files)
}

/// Once a prefix of the paths fails, so do all longer prefixes, with the
/// same error.
proof fn lemma_fluent_files_from_error(paths: Seq<Seq<char>>, k: int)
    requires
        0 <= k <= paths.len(),
        fluent_files_from(paths.take(k)) is Err,
    ensures
        fluent_files_from(paths) == fluent_files_from(paths.take(k)),
    decreases paths.len() - k,
{
    if k < paths.len() {
        assert(paths.take(k + 1).drop_last() =~= paths.take(k));
        lemma_fluent_files_from_error(paths, k + 1);
    } else {
        assert(paths.take(k) =~= paths);
    }
}

/// Once a prefix of the paths fails, so do all longer prefixes, with the
/// same error.
proof fn lemma_rust_files_from_error(paths: Seq<Seq<char>>, k: int)
    requires
        0 <= k <= paths.len(),
        rust_files_from(paths.take(k)) is Err,
    ensures
        rust_files_from(paths) == rust_files_from(paths.take(k)),
    decreases paths.len() - k,
{
    if k < paths.len() {
        assert(paths.take(k + 1).drop_last() =~= paths.take(k));
        lemma_rust_files_from_error(paths, k + 1);
    } else {
        assert(paths.take(k) =~= paths);
    }
}

/// The Rust files among the candidates: those with extension `rs`.
pub fn collate_rust_files(candidates: &Vec<(String, bool)>) -> (res: Result<Vec<RustFile>, LingoraError>)
    ensures
        match rust_files_from(collated(candidates_view(candidates@), "rs"@)) {
            Ok(fs) => res matches Ok(files) && rust_files_view(files@) == fs,
            Err(e) => res matches Err(err) && err@ == e,
        },
{
    let paths = collate_files(candidates, "rs");
    let ghost pv = views(paths@);
    let mut files: Vec<RustFile> = Vec::new();
    let n = paths.len();
    let mut i: usize = 0;
    assert(pv.take(0) =~= Seq::<Seq<char>>::empty());
    assert(rust_files_view(files@) =~= Seq::<Seq<char>>::empty());
    while i < n
        invariant
            n == paths.len(),
            i <= n,
            pv == views(paths@),
            pv == collated(candidates_view(candidates@), "rs"@),
            rust_files_from(pv.take(i as int)) == Ok::<Seq<Seq<char>>, ErrorModel>(rust_files_view(files@)),
        decreases n - i,
    {
        assert(pv.take(i + 1).drop_last() =~= pv.take(i as int));
        assert(pv.take(i + 1).last() == paths@[i as int]@);
        match RustFile::try_from_path(paths[i].as_str(), true) {
            Ok(f) => {
                let ghost before = rust_files_view(files@);
                files.push(f);
                assert(rust_files_view(files@) =~= before.push(files@.last()@));
            },
            Err(e) => {
                assert(rust_files_from(pv.take(i + 1)) == Err::<Seq<Seq<char>>, ErrorModel>(e@));
                proof { lemma_rust_files_from_error(pv, i as int + 1); }
                return Err(e);
            },
        }
        i += 1;
    }
    assert(pv.take(n as int) =~= pv);
    Ok(files)
}

/// What an audit of a workspace, whose Fluent files have the texts
/// `contents`, gives: the parse errors, the issues of classifying the
/// documents, and the issues of auditing them; and the documents by role.
pub open spec fn audit_outcome(ws: WorkspaceModel, contents: Seq<Seq<char>>) -> ResultModel {
    let parsed = parsed_models(ws.fluent_files, contents);
    let docs = collected_documents(parsed);
    let c = classify(docs, ws.canonical, ws.primaries);
    ResultModel {
        issues: parse_error_issues(parsed) + classification_issues(docs, ws.canonical, ws.primaries) + audit_issues(c),
        documents: keyed_documents(roled_documents(c)),
        workspace: ws,
    }
}

/// Runs audits over a workspace.
pub struct AuditEngine {
    workspace: Workspace,
}

impl View for AuditEngine {
    type V = WorkspaceModel;

    closed spec fn view(&self) -> WorkspaceModel {
        self.workspace@
    }
}

impl AuditEngine {
    /// The engine of a workspace.
    pub fn new(workspace: Workspace) -> (res: AuditEngine)
        ensures
            res@ == workspace@,
    {
        AuditEngine { workspace }
    }

    /// The engine of the workspace the settings describe: the Fluent and
    /// Rust files among the candidates, with the canonical and primary
    /// locales of the settings. Fails with the error of the first candidate
    /// Fluent file, then Rust file, that is not one.
    pub fn try_from_settings(
        settings: &LingoraToml,
        fluent_candidates: &Vec<(String, bool)>,
        rust_candidates: &Vec<(String, bool)>,
    ) -> (res: Result<AuditEngine, LingoraError>)
        ensures
            match fluent_files_from(collated(candidates_view(fluent_candidates@), "ftl"@)) {
                Err(e) => res matches Err(err) && err@ == e,
                Ok(fs) => match rust_files_from(collated(candidates_view(rust_candidates@), "rs"@)) {
                    Err(e) => res matches Err(err) && err@ == e,
                    Ok(rs) => res matches Ok(engine) && engine@ == (WorkspaceModel {
                        fluent_files: fs,
                        canonical: settings@.canonical,
                        primaries: settings@.primaries,
                        rust_files: rs,
                    }),
                },
            },
    {
        let fluent_files = match collate_fluent_files(fluent_candidates) {
            Ok(f) => f,
            Err(e) => return Err(e),
        };
        let rust_files = match collate_rust_files(rust_candidates) {
            Ok(r) => r,
            Err(e) => return Err(e),
        };
        let workspace = Workspace::new(
            fluent_files,
            settings.lingora.canonical.copy(),
            copy_locales(&settings.lingora.primaries),
            rust_files,
        );
        Ok(AuditEngine { workspace })
    }

    /// The workspace audited.
    pub fn workspace(&self) -> (res: &Workspace)
        ensures
            res@ == self@,
    {
        &self.workspace
    }

    /// Audits the workspace, whose Fluent files have the texts `contents`
    /// (one per file, in order).
    pub fn run(&self, contents: &Vec<String>) -> (res: AuditResult)
        requires
            contents.len() == self@.fluent_files.len(),
        ensures
            res@ == audit_outcome(self@, views(contents@)),
    {
        let workspace = &self.workspace;
        let files = workspace.fluent_files();
        let canonical = workspace.canonical_locale();
        let primaries = workspace.primary_locales();
        let parsed = Pipeline::default().parse_fluent_files(files, contents);
        let collected = parsed.collect_documents_by_locale();
        let classified = collected.classify_documents(canonical, primaries);
        let audited = classified.audit();
        audited.get_result(workspace)
    }
}

} // verus!
