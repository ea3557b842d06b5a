//! File-system paths as text, taken apart with `std::path`.
use vstd::prelude::*;
use crate::order::{compare_text, text_order};

verus! {

/// One component of a path, as `std::path::Component` reports it.
pub enum PathComponent {
    Prefix(String),
    RootDir,
    CurDir,
    ParentDir,
    Normal(String),
}

/// A path component, with its text as a view.
pub enum ComponentModel {
    Prefix(Seq<char>),
    RootDir,
    CurDir,
    ParentDir,
    Normal(Seq<char>),
}

impl View for PathComponent {
    type V = ComponentModel;

    open spec fn view(&self) -> ComponentModel {
        match self {
            PathComponent::Prefix(s) => ComponentModel::Prefix(s@),
            PathComponent::RootDir => ComponentModel::RootDir,
            PathComponent::CurDir => ComponentModel::CurDir,
            PathComponent::ParentDir => ComponentModel::ParentDir,
            PathComponent::Normal(s) => ComponentModel::Normal(s@),
        }
    }
}

/// The views of a sequence of components.
pub open spec fn components_view(s: Seq<PathComponent>) -> Seq<ComponentModel> {
    s.map_values(|c: PathComponent| c@)
}

/// The components of a path, as `std::path::Path::components` lists them.
pub uninterp spec fn components_of(path: Seq<char>) -> Seq<ComponentModel>;

/// The stem of the final component, as `std::path::Path::file_stem` gives it.
pub uninterp spec fn file_stem_of(path: Seq<char>) -> Option<Seq<char>>;

/// The extension of the final component, as `std::path::Path::extension` gives it.
pub uninterp spec fn extension_of(path: Seq<char>) -> Option<Seq<char>>;

/// The final component, as `std::path::Path::file_name` gives it.
pub uninterp spec fn file_name_of(path: Seq<char>) -> Option<Seq<char>>;

/// The view of an optional string.
pub open spec fn opt_text(o: Option<String>) -> Option<Seq<char>> {
    match o {
        Some(s) => Some(s@),
        None => None,
    }
}

/// Lists `std::path::Path::components` of `path` (with lossy text). The
/// contract names the result `components_of(path)`.
#[verifier::external_body]
pub(crate) fn path_components(path: &str) -> (res: Vec<PathComponent>)
    ensures
        components_view(res@) == components_of(path@),
{
    std::path::Path::new(path).components().map(|c| match c {
        std::path::Component::Prefix(p) => PathComponent::Prefix(p.as_os_str().to_string_lossy().to_string()),
        std::path::Component::RootDir => PathComponent::RootDir,
        std::path::Component::CurDir => PathComponent::CurDir,
        std::path::Component::ParentDir => PathComponent::ParentDir,
        std::path::Component::Normal(n) => PathComponent::Normal(n.to_string_lossy().to_string()),
    }).collect()
}

/// `std::path::Path::file_stem` of `path` (with lossy text). The contract
/// names the result `file_stem_of(path)`.
#[verifier::external_body]
pub(crate) fn path_file_stem(path: &str) -> (res: Option<String>)
    ensures
        opt_text(res) == file_stem_of(path@),
{
    std::path::Path::new(path).file_stem().map(|s| s.to_string_lossy().to_string())
}

/// `std::path::Path::extension` of `path` (with lossy text). The contract
/// names the result `extension_of(path)`.
#[verifier::external_body]
pub(crate) fn path_extension(path: &str) -> (res: Option<String>)
    ensures
        opt_text(res) == extension_of(path@),
{
    std::path::Path::new(path).extension().map(|s| s.to_string_lossy().to_string())
}

/// `std::path::Path::file_name` of `path` (with lossy text). The contract
/// names the result `file_name_of(path)`.
#[verifier::external_body]
pub(crate) fn path_file_name(path: &str) -> (res: Option<String>)
    ensures
        opt_text(res) == file_name_of(path@),
{
    std::path::Path::new(path).file_name().map(|s| s.to_string_lossy().to_string())
}

/// Whether the path has the given extension.
pub fn has_extension(path: &str, ext: &str) -> (res: bool)
    ensures
        res == (extension_of(path@) == Some(ext@)),
{
    match path_extension(path) {
        Some(e) => {
            let wanted = String::from_str(ext);
            e.eq(&wanted)
        },
        None => false,
    }
}

/// The names of the normal components among `c`, in order.
pub open spec fn normal_names(c: Seq<ComponentModel>) -> Seq<Seq<char>>
    decreases c.len(),
{
    if c.len() == 0 {
        Seq::empty()
    } else {
        let rest = normal_names(c.drop_last());
        match c.last() {
            ComponentModel::Normal(n) => rest.push(n),
            _ => rest,
        }
    }
}

/// The components of the parent: all but the last one.
pub open spec fn parent_components(c: Seq<ComponentModel>) -> Seq<ComponentModel> {
    if c.len() == 0 {
        c
    } else {
        c.drop_last()
    }
}

/// The names of the normal components of a path's parent.
pub fn parent_normal_names(path: &str) -> (res: Vec<String>)
    ensures
        crate::text::views(res@) == normal_names(parent_components(components_of(path@))),
{
    let comps = path_components(path);
    let n = comps.len();
    let m: usize = if n == 0 { 0 } else { n - 1 };
    let mut res: Vec<String> = Vec::new();
    let mut i: usize = 0;
    while i < m
        invariant
            n == comps.len(),
            m == if n == 0 { 0 } else { n - 1 },
            i <= m,
            components_view(comps@) == components_of(path@),
            crate::text::views(res@) == normal_names(components_view(comps@).take(i as int)),
        decreases m - i,
    {
        let ghost before = crate::text::views(res@);
        match &comps[i] {
            PathComponent::Normal(name) => {
                res.push(name.clone());
                assert(crate::text::views(res@) =~= before.push(name@));
            },
            _ => {},
        }
        assert(components_view(comps@).take(i + 1).drop_last() =~= components_view(comps@).take(i as int));
        i += 1;
    }
    assert(components_view(comps@).take(m as int) =~= parent_components(components_of(path@)));
    res
}

/// The position of a component's kind in the order `Prefix`, `RootDir`,
/// `CurDir`, `ParentDir`, `Normal`.
pub open spec fn component_rank(c: ComponentModel) -> int {
    match c {
        ComponentModel::Prefix(_) => 0,
        ComponentModel::RootDir => 1,
        ComponentModel::CurDir => 2,
        ComponentModel::ParentDir => 3,
        ComponentModel::Normal(_) => 4,
    }
}

/// The order of two components: by kind, then by text.
pub open spec fn component_order(a: ComponentModel, b: ComponentModel) -> int {
    if component_rank(a) < component_rank(b) {
        -1
    } else if component_rank(a) > component_rank(b) {
        1
    } else {
        match (a, b) {
            (ComponentModel::Prefix(x), ComponentModel::Prefix(y)) => text_order(x, y),
            (ComponentModel::Normal(x), ComponentModel::Normal(y)) => text_order(x, y),
            _ => 0,
        }
    }
}

/// The lexicographic order of two sequences of components.
pub open spec fn components_order(a: Seq<ComponentModel>, b: Seq<ComponentModel>) -> int
    decreases a.len(),
{
    if a.len() == 0 {
        if b.len() == 0 { 0 } else { -1 }
    } else if b.len() == 0 {
        1
    } else if component_order(a[0], b[0]) != 0 {
        component_order(a[0], b[0])
    } else {
        components_order(a.drop_first(), b.drop_first())
    }
}

/// The order of two paths: component by component.
pub open spec fn path_order(a: Seq<char>, b: Seq<char>) -> int {
    components_order(components_of(a), components_of(b))
}

/// The order of two components.
fn compare_components(a: &PathComponent, b: &PathComponent) -> (res: i8)
    ensures
        res as int == component_order(a@, b@),
{
    match (a, b) {
        (PathComponent::Prefix(x), PathComponent::Prefix(y)) => compare_text(x.as_str(), y.as_str()),
        (PathComponent::Normal(x), PathComponent::Normal(y)) => compare_text(x.as_str(), y.as_str()),
        _ => {
            let ra = component_position(a);
            let rb = component_position(b);
            if ra < rb {
                -1
            } else if ra > rb {
                1
            } else {
                0
            }
        },
    }
}

/// The position of a component's kind.
fn component_position(c: &PathComponent) -> (res: u8)
    ensures
        res as int == component_rank(c@),
{
    match c {
        PathComponent::Prefix(_) => 0,
        PathComponent::RootDir => 1,
        PathComponent::CurDir => 2,
        PathComponent::ParentDir => 3,
        PathComponent::Normal(_) => 4,
    }
}

/// The order of two paths, component by component.
pub fn compare_paths(a: &str, b: &str) -> (res: i8)
    ensures
        res as int == path_order(a@, b@),
{
    let x = path_components(a);
    let y = path_components(b);
    let ghost xv = components_view(x@);
    let ghost yv = components_view(y@);
    let n = x.len();
    let m = y.len();
    assert(xv.skip(0) =~= xv);
    assert(yv.skip(0) =~= yv);
    let mut i: usize = 0;
    while i < n && i < m
        invariant
            n == x.len(),
            m == y.len(),
            xv == components_view(x@),
            yv == components_view(y@),
            xv == components_of(a@),
            yv == components_of(b@),
            i <= n,
            i <= m,
            components_order(xv, yv) == components_order(xv.skip(i as int), yv.skip(i as int)),
        decreases n - i,
    {
        let c = compare_components(&x[i], &y[i]);
        assert(xv.skip(i as int).len() > 0 && yv.skip(i as int).len() > 0);
        assert(xv.skip(i as int)[0] == x@[i as int]@);
        assert(yv.skip(i as int)[0] == y@[i as int]@);
        if c != 0 {
            return c;
        }
        assert(xv.skip(i as int).drop_first() =~= xv.skip(i + 1));
        assert(yv.skip(i as int).drop_first() =~= yv.skip(i + 1));
        i += 1;
    }
    if i == n {
        if i == m { 0 } else { -1 }
    } else {
        1
    }
}

/// How a path that names no locale is shown: its final component, or the
/// whole path when it has none.
pub open spec fn invalid_filename_text(path: Seq<char>) -> Seq<char> {
    match file_name_of(path) {
        Some(f) => f,
        None => path,
    }
}

/// The final component of `path`, or the whole path when it has none.
pub fn invalid_filename_as_string(path: &str) -> (res: String)
    ensures
        res@ == invalid_filename_text(path@),
{
    match path_file_name(path) {
        Some(f) => f,
        None => String::from_str(path),
    }
}

impl PathComponent {
    /// Whether two components are the same.
    pub fn same_as(&self, other: &PathComponent) -> (res: bool)
        ensures
            res == (self@ == other@),
    {
        match (self, other) {
            (PathComponent::Prefix(a), PathComponent::Prefix(b)) => a.eq(b),
            (PathComponent::RootDir, PathComponent::RootDir) => true,
            (PathComponent::CurDir, PathComponent::CurDir) => true,
            (PathComponent::ParentDir, PathComponent::ParentDir) => true,
            (PathComponent::Normal(a), PathComponent::Normal(b)) => a.eq(b),
            _ => false,
        }
    }
}

/// Two components compare equal exactly when they are the same.
pub proof fn lemma_component_order_zero(a: ComponentModel, b: ComponentModel)
    ensures
        component_order(a, b) == 0 <==> a == b,
{
    match (a, b) {
        (ComponentModel::Prefix(x), ComponentModel::Prefix(y)) => crate::order::lemma_text_order_zero(x, y),
        (ComponentModel::Normal(x), ComponentModel::Normal(y)) => crate::order::lemma_text_order_zero(x, y),
        _ => {},
    }
}

/// Two sequences of components compare equal exactly when they are the
/// same.
pub proof fn lemma_components_order_zero(a: Seq<ComponentModel>, b: Seq<ComponentModel>)
    ensures
        components_order(a, b) == 0 <==> a == b,
    decreases a.len(),
{
    if a.len() > 0 && b.len() > 0 {
        lemma_component_order_zero(a[0], b[0]);
        lemma_components_order_zero(a.drop_first(), b.drop_first());
        if a[0] == b[0] && a.drop_first() == b.drop_first() {
            assert(a =~= seq![a[0]] + a.drop_first());
            assert(b =~= seq![b[0]] + b.drop_first());
        }
        if a == b {
            assert(a.drop_first() == b.drop_first());
        }
    }
    if a.len() == 0 && b.len() == 0 {
        assert(a =~= b);
    }
}

/// Whether two paths have the same components (as `std::path::Path`
/// equality tells).
pub open spec fn same_path(a: Seq<char>, b: Seq<char>) -> bool {
    components_of(a) == components_of(b)
}

/// Whether two paths have the same components.
pub fn paths_equal(a: &str, b: &str) -> (res: bool)
    ensures
        res == same_path(a@, b@),
{
    let c = compare_paths(a, b);
    proof { lemma_components_order_zero(components_of(a@), components_of(b@)); }
    c == 0
}

} // verus!
