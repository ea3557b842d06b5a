//! What a Fluent document defines and references, gathered from a walk of
//! its syntax tree.
use vstd::prelude::*;
use crate::assoc::{dedup, lemma_dedup, lemma_push_contains, has_key, keys, keys_unique, lemma_key_pos, lemma_upsert, lookup, upsert};
use crate::identifier::{copy_segments, normalize_path, segments_view, Path, PathSegment, QualifiedIdentifier, SegmentModel};
use crate::text::{concat3, views};
use crate::walk::{events_view, EventModel, WalkEvent};

verus! {

/// A frame stack of path prefixes, one frame per node being walked.
pub open spec fn top(s: Seq<Seq<SegmentModel>>) -> Seq<SegmentModel> {
    if s.len() == 0 {
        Seq::empty()
    } else {
        s.last()
    }
}

/// Entering a node pushes a copy of the current frame.
pub open spec fn stack_enter(s: Seq<Seq<SegmentModel>>) -> Seq<Seq<SegmentModel>> {
    s.push(top(s))
}

/// Leaving a node drops its frame.
pub open spec fn stack_exit(s: Seq<Seq<SegmentModel>>) -> Seq<Seq<SegmentModel>> {
    if s.len() == 0 {
        s
    } else {
        s.drop_last()
    }
}

/// A segment is appended to the current frame (if there is one).
pub open spec fn stack_push(s: Seq<Seq<SegmentModel>>, seg: SegmentModel) -> Seq<Seq<SegmentModel>> {
    if s.len() == 0 {
        s
    } else {
        s.update(s.len() - 1, s.last().push(seg))
    }
}

/// The first non-empty frame at or above position `i`, from the bottom of
/// the stack: the path of the message or term being walked.
pub open spec fn root_from(s: Seq<Seq<SegmentModel>>, i: int) -> Seq<SegmentModel>
    decreases s.len() - i,
{
    if i < 0 || i >= s.len() {
        Seq::empty()
    } else if s[i].len() > 0 {
        s[i]
    } else {
        root_from(s, i + 1)
    }
}

/// The path of the message or term being walked.
pub open spec fn stack_root(s: Seq<Seq<SegmentModel>>) -> Seq<SegmentModel> {
    root_from(s, 0)
}

/// The shape of the placeables of a message or term: whether it has a
/// value, and the paths of its attributes, variants and variables.
pub struct SignatureModel {
    pub has_value: bool,
    pub paths: Seq<Seq<SegmentModel>>,
}

/// Two signatures agree when both have, or both lack, a value and they hold
/// the same set of paths.
pub open spec fn same_signature(a: SignatureModel, b: SignatureModel) -> bool {
    a.has_value == b.has_value && a.paths.to_set() == b.paths.to_set()
}

/// The signature of an entry that has none recorded yet.
pub open spec fn empty_signature() -> SignatureModel {
    SignatureModel { has_value: false, paths: Seq::empty() }
}

/// `p` added to `paths` unless already there.
pub open spec fn insert_path(paths: Seq<Seq<SegmentModel>>, p: Seq<SegmentModel>) -> Seq<Seq<SegmentModel>> {
    if paths.contains(p) {
        paths
    } else {
        paths.push(p)
    }
}

/// What the walk has gathered so far.
pub struct DefinitionsModel {
    /// The text of the entry being walked.
    pub current_entry: Option<Seq<char>>,
    /// Frames of the definition paths.
    pub path_stack: Seq<Seq<SegmentModel>>,
    /// Frames of the reference paths.
    pub reference_stack: Seq<Seq<SegmentModel>>,
    /// For each defined path, the texts of the entries that define it.
    pub entries: Seq<(Seq<SegmentModel>, Seq<Seq<char>>)>,
    /// For each message or term, its signature.
    pub signatures: Seq<(Seq<SegmentModel>, SignatureModel)>,
    /// Every reference, in the order met.
    pub references: Seq<Seq<SegmentModel>>,
}

/// Before the walk.
pub open spec fn initial_definitions() -> DefinitionsModel {
    DefinitionsModel {
        current_entry: None,
        path_stack: Seq::empty(),
        reference_stack: Seq::empty(),
        entries: Seq::empty(),
        signatures: Seq::empty(),
        references: Seq::empty(),
    }
}

/// The signature stored for `root`, or an empty one.
pub open spec fn signature_or_empty(
    sigs: Seq<(Seq<SegmentModel>, SignatureModel)>,
    root: Seq<SegmentModel>,
) -> SignatureModel {
    match lookup(sigs, root) {
        Some(s) => s,
        None => empty_signature(),
    }
}

/// `p` is added to the signature of the message or term being walked.
pub open spec fn with_signature_path(m: DefinitionsModel, p: Seq<SegmentModel>) -> DefinitionsModel {
    let root = stack_root(m.path_stack);
    let sig = signature_or_empty(m.signatures, root);
    DefinitionsModel {
        signatures: upsert(
            m.signatures,
            root,
            SignatureModel { has_value: sig.has_value, paths: insert_path(sig.paths, p) },
        ),
        ..m
    }
}

/// The signature of the message or term being walked records whether it has
/// a value.
pub open spec fn with_has_value(m: DefinitionsModel, b: bool) -> DefinitionsModel {
    let root = stack_root(m.path_stack);
    let sig = signature_or_empty(m.signatures, root);
    DefinitionsModel {
        signatures: upsert(m.signatures, root, SignatureModel { has_value: b, paths: sig.paths }),
        ..m
    }
}

/// A definition segment is appended to the current frame; when inside an
/// entry, the resulting path is recorded as defined by that entry and added
/// to the signature of its message or term.
pub open spec fn record(m: DefinitionsModel, seg: SegmentModel) -> DefinitionsModel {
    let stack = stack_push(m.path_stack, seg);
    let p = top(stack);
    let m1 = DefinitionsModel { path_stack: stack, ..m };
    match m.current_entry {
        Some(e) => {
            let texts = match lookup(m.entries, p) {
                Some(t) => t,
                None => Seq::empty(),
            };
            with_signature_path(DefinitionsModel { entries: upsert(m.entries, p, texts.push(e)), ..m1 }, p)
        },
        None => m1,
    }
}

/// A reference segment is appended to the current reference frame and the
/// resulting path recorded as a reference.
pub open spec fn reference(m: DefinitionsModel, seg: SegmentModel) -> DefinitionsModel {
    let stack = stack_push(m.reference_stack, seg);
    DefinitionsModel { reference_stack: stack, references: m.references.push(top(stack)), ..m }
}

/// `[key]`: how a variant key is named in a path.
pub open spec fn bracketed(key: Seq<char>) -> Seq<char> {
    "["@ + key + "]"@
}

/// The effect of one walk event.
pub open spec fn step(m: DefinitionsModel, e: EventModel) -> DefinitionsModel {
    match e {
        EventModel::Enter => DefinitionsModel {
            path_stack: stack_enter(m.path_stack),
            reference_stack: stack_enter(m.reference_stack),
            ..m
        },
        EventModel::Exit => DefinitionsModel {
            path_stack: stack_exit(m.path_stack),
            reference_stack: stack_exit(m.reference_stack),
            ..m
        },
        EventModel::Entry(text) => DefinitionsModel { current_entry: Some(text), ..m },
        EventModel::Message(name, has_pattern) => with_has_value(
            record(m, SegmentModel::Message(name)),
            has_pattern,
        ),
        EventModel::Term(name) => with_has_value(record(m, SegmentModel::Term(name)), true),
        EventModel::Attribute(name) => record(m, SegmentModel::Attribute(name)),
        EventModel::Variant(key) => record(m, SegmentModel::Variant(bracketed(key))),
        EventModel::DefaultVariant(key) => record(m, SegmentModel::DefaultVariant(bracketed(key))),
        EventModel::MessageReference(name) => reference(m, SegmentModel::Message(name)),
        EventModel::TermReference(name) => reference(m, SegmentModel::Term(name)),
        EventModel::AttributeAccessor(name) => reference(m, SegmentModel::Attribute(name)),
        EventModel::VariableReference(name) => with_signature_path(
            m,
            stack_root(m.path_stack).push(SegmentModel::Variable(name)),
        ),
        EventModel::FunctionReference(_) => m,
    }
}

/// The definitions gathered from a whole walk.
pub open spec fn walk_definitions(events: Seq<EventModel>) -> DefinitionsModel
    decreases events.len(),
{
    if events.len() == 0 {
        initial_definitions()
    } else {
        step(walk_definitions(events.drop_last()), events.last())
    }
}

/// The signature of a message or term.
pub struct Signature {
    has_value: bool,
    paths: Vec<Path>,
}

/// The views of a sequence of paths.
pub open spec fn paths_view(p: Seq<Path>) -> Seq<Seq<SegmentModel>> {
    p.map_values(|x: Path| x@)
}

impl View for Signature {
    type V = SignatureModel;

    closed spec fn view(&self) -> SignatureModel {
        SignatureModel { has_value: self.has_value, paths: paths_view(self.paths@) }
    }
}

/// A copy of a sequence of paths.
pub fn copy_paths(p: &Vec<Path>) -> (res: Vec<Path>)
    ensures
        paths_view(res@) == paths_view(p@),
{
    let mut res: Vec<Path> = Vec::new();
    let n = p.len();
    let mut i: usize = 0;
    while i < n
        invariant
            n == p.len(),
            i <= n,
            res.len() == i,
            forall|j: int| 0 <= j < i ==> res@[j]@ == p@[j]@,
        decreases n - i,
    {
        res.push(p[i].copy());
        i += 1;
    }
    assert(paths_view(res@) =~= paths_view(p@));
    res
}

/// Whether `p` is among `paths`.
pub fn contains_path(paths: &Vec<Path>, p: &Path) -> (res: bool)
    ensures
        res == paths_view(paths@).contains(p@),
{
    let n = paths.len();
    let mut i: usize = 0;
    while i < n
        invariant
            n == paths.len(),
            i <= n,
            forall|j: int| 0 <= j < i ==> paths@[j]@ != p@,
        decreases n - i,
    {
        if paths[i].same_as(p) {
            assert(paths_view(paths@)[i as int] == p@);
            return true;
        }
        i += 1;
    }
    assert(!paths_view(paths@).contains(p@));
    false
}

/// Whether every path of `a` is among `b`.
fn paths_within(a: &Vec<Path>, b: &Vec<Path>) -> (res: bool)
    ensures
        res == paths_view(a@).to_set().subset_of(paths_view(b@).to_set()),
{
    let n = a.len();
    let mut i: usize = 0;
    while i < n
        invariant
            n == a.len(),
            i <= n,
            forall|j: int| 0 <= j < i ==> paths_view(b@).contains(#[trigger] paths_view(a@)[j]),
        decreases n - i,
    {
        if !contains_path(b, &a[i]) {
            assert(paths_view(a@).to_set().contains(paths_view(a@)[i as int]));
            return false;
        }
        i += 1;
    }
    assert forall|x: Seq<SegmentModel>| paths_view(a@).to_set().contains(x) implies paths_view(b@).to_set().contains(x) by {
        let j = choose|j: int| 0 <= j < paths_view(a@).len() && paths_view(a@)[j] == x;
    }
    true
}

impl Signature {
    /// Whether the message or term has a value.
    pub fn has_value(&self) -> (res: bool)
        ensures
            res == self@.has_value,
    {
        self.has_value
    }

    /// The paths of the attributes, variants and variables.
    pub fn paths(&self) -> (res: &Vec<Path>)
        ensures
            paths_view(res@) == self@.paths,
    {
        &self.paths
    }

    /// A copy of this signature.
    pub fn copy(&self) -> (res: Signature)
        ensures
            res@ == self@,
    {
        Signature { has_value: self.has_value, paths: copy_paths(&self.paths) }
    }

    /// Whether two signatures agree: same value flag, same set of paths.
    pub fn same_as(&self, other: &Signature) -> (res: bool)
        ensures
            res == same_signature(self@, other@),
    {
        if self.has_value != other.has_value {
            return false;
        }
        let ab = paths_within(&self.paths, &other.paths);
        let ba = paths_within(&other.paths, &self.paths);
        proof {
            if ab && ba {
                assert(self@.paths.to_set() =~= other@.paths.to_set());
            }
        }
        ab && ba
    }
}

/// Whether there is a definition of `p`.
pub open spec fn defines(m: DefinitionsModel, p: Seq<SegmentModel>) -> bool {
    has_key(m.entries, p)
}

/// The definitions of a Fluent document: for each defined path the entries
/// that define it, the signature of each message and term, and the
/// references it makes.
pub struct Definitions {
    current_entry: Option<String>,
    path_stack: Vec<Vec<PathSegment>>,
    reference_stack: Vec<Vec<PathSegment>>,
    entries: Vec<(Path, Vec<String>)>,
    signatures: Vec<(Path, Signature)>,
    references: Vec<Path>,
}

/// The views of a stack of frames.
pub open spec fn stack_view(s: Seq<Vec<PathSegment>>) -> Seq<Seq<SegmentModel>> {
    s.map_values(|f: Vec<PathSegment>| segments_view(f@))
}

/// The views of the entry records.
pub open spec fn entries_view(s: Seq<(Path, Vec<String>)>) -> Seq<(Seq<SegmentModel>, Seq<Seq<char>>)> {
    s.map_values(|r: (Path, Vec<String>)| (r.0@, views(r.1@)))
}

/// The views of the signature records.
pub open spec fn signatures_view(s: Seq<(Path, Signature)>) -> Seq<(Seq<SegmentModel>, SignatureModel)> {
    s.map_values(|r: (Path, Signature)| (r.0@, r.1@))
}

/// The view of an optional string.
pub open spec fn entry_view(e: Option<String>) -> Option<Seq<char>> {
    match e {
        Some(s) => Some(s@),
        None => None,
    }
}

impl View for Definitions {
    type V = DefinitionsModel;

    closed spec fn view(&self) -> DefinitionsModel {
        DefinitionsModel {
            current_entry: entry_view(self.current_entry),
            path_stack: stack_view(self.path_stack@),
            reference_stack: stack_view(self.reference_stack@),
            entries: entries_view(self.entries@),
            signatures: signatures_view(self.signatures@),
            references: paths_view(self.references@),
        }
    }
}

/// The invariant of gathered definitions: keys are distinct, every defined
/// path has at least one entry, and no signature lists a path twice.
pub open spec fn definitions_wf(m: DefinitionsModel) -> bool {
    &&& keys_unique(m.entries)
    &&& keys_unique(m.signatures)
    &&& forall|i: int| 0 <= i < m.entries.len() ==> (#[trigger] m.entries[i]).1.len() > 0
    &&& forall|i: int| 0 <= i < m.signatures.len() ==> (#[trigger] m.signatures[i]).1.paths.no_duplicates()
}

/// A copy of the top frame of a stack.
fn copy_top(s: &Vec<Vec<PathSegment>>) -> (res: Vec<PathSegment>)
    ensures
        segments_view(res@) == top(stack_view(s@)),
{
    let n = s.len();
    if n == 0 {
        let res: Vec<PathSegment> = Vec::new();
        assert(segments_view(res@) =~= Seq::<SegmentModel>::empty());
        res
    } else {
        copy_segments(&s[n - 1])
    }
}

/// A copy of the root frame of a stack.
fn copy_root(s: &Vec<Vec<PathSegment>>) -> (res: Vec<PathSegment>)
    ensures
        segments_view(res@) == stack_root(stack_view(s@)),
{
    let n = s.len();
    let mut i: usize = 0;
    while i < n
        invariant
            n == s.len(),
            i <= n,
            root_from(stack_view(s@), 0) == root_from(stack_view(s@), i as int),
        decreases n - i,
    {
        if s[i].len() > 0 {
            return copy_segments(&s[i]);
        }
        i += 1;
    }
    let res: Vec<PathSegment> = Vec::new();
    assert(segments_view(res@) =~= Seq::<SegmentModel>::empty());
    res
}

/// Enters a node on a stack.
fn enter_stack(s: &mut Vec<Vec<PathSegment>>)
    ensures
        stack_view(final(s)@) == stack_enter(stack_view(old(s)@)),
{
    let t = copy_top(s);
    s.push(t);
    assert(stack_view(s@) =~= stack_enter(stack_view(old(s)@)));
}

/// Leaves a node on a stack.
fn exit_stack(s: &mut Vec<Vec<PathSegment>>)
    ensures
        stack_view(final(s)@) == stack_exit(stack_view(old(s)@)),
{
    if s.len() > 0 {
        let _ = s.pop();
        assert(stack_view(s@) =~= stack_exit(stack_view(old(s)@)));
    }
}

/// Appends a segment to the top frame of a stack.
fn push_on_stack(s: &mut Vec<Vec<PathSegment>>, seg: PathSegment)
    ensures
        stack_view(final(s)@) == stack_push(stack_view(old(s)@), seg@),
{
    if s.len() > 0 {
        let mut t = s.pop().unwrap();
        let ghost before = t@;
        let ghost sv = seg@;
        t.push(seg);
        assert(segments_view(t@) =~= segments_view(before).push(sv));
        s.push(t);
        assert(stack_view(s@) =~= stack_push(stack_view(old(s)@), seg@));
    }
}

impl Definitions {
    /// Nothing gathered yet.
    pub fn new() -> (res: Definitions)
        ensures
            res@ == initial_definitions(),
            definitions_wf(res@),
    {
        let res = Definitions {
            current_entry: None,
            path_stack: Vec::new(),
            reference_stack: Vec::new(),
            entries: Vec::new(),
            signatures: Vec::new(),
            references: Vec::new(),
        };
        assert(res@.path_stack =~= Seq::<Seq<SegmentModel>>::empty());
        assert(res@.reference_stack =~= Seq::<Seq<SegmentModel>>::empty());
        assert(res@.entries =~= Seq::<(Seq<SegmentModel>, Seq<Seq<char>>)>::empty());
        assert(res@.signatures =~= Seq::<(Seq<SegmentModel>, SignatureModel)>::empty());
        assert(res@.references =~= Seq::<Seq<SegmentModel>>::empty());
        res
    }

    /// The position of the entry record for `p`.
    fn find_entry(&self, p: &Path) -> (res: Option<usize>)
        ensures
            match res {
                Some(i) => i < self.entries.len() && self@.entries[i as int].0 == p@,
                None => !has_key(self@.entries, p@),
            },
    {
        let n = self.entries.len();
        let mut i: usize = 0;
        while i < n
            invariant
                n == self.entries.len(),
                i <= n,
                forall|j: int| 0 <= j < i ==> self@.entries[j].0 != p@,
            decreases n - i,
        {
            if self.entries[i].0.same_as(p) {
                return Some(i);
            }
            i += 1;
        }
        None
    }

    /// The position of the signature record for `p`.
    fn find_signature(&self, p: &Path) -> (res: Option<usize>)
        ensures
            match res {
                Some(i) => i < self.signatures.len() && self@.signatures[i as int].0 == p@,
                None => !has_key(self@.signatures, p@),
            },
    {
        let n = self.signatures.len();
        let mut i: usize = 0;
        while i < n
            invariant
                n == self.signatures.len(),
                i <= n,
                forall|j: int| 0 <= j < i ==> self@.signatures[j].0 != p@,
            decreases n - i,
        {
            if self.signatures[i].0.same_as(p) {
                return Some(i);
            }
            i += 1;
        }
        None
    }

    /// Stores `sig` as the signature of `root`.
    fn store_signature(&mut self, root: Path, sig: Signature)
        requires
            definitions_wf(old(self)@),
            sig@.paths.no_duplicates(),
        ensures
            definitions_wf(final(self)@),
            final(self)@ == (DefinitionsModel {
                signatures: upsert(old(self)@.signatures, root@, sig@),
                ..old(self)@
            }),
    {
        let ghost old_sigs = self@.signatures;
        proof { lemma_upsert(old_sigs, root@, sig@); }
        match self.find_signature(&root) {
            Some(i) => {
                proof { lemma_key_pos(old_sigs, root@, i as int); }
                self.signatures.set(i, (root, sig));
                assert(self@.signatures =~= upsert(old_sigs, root@, sig@));
            },
            None => {
                self.signatures.push((root, sig));
                assert(self@.signatures =~= upsert(old_sigs, root@, sig@));
            },
        }
        let ghost t = upsert(old_sigs, root@, sig@);
        assert forall|i: int| 0 <= i < t.len() implies (#[trigger] t[i]).1.paths.no_duplicates() by {
            if i < old_sigs.len() && t[i] == old_sigs[i] {
            }
        }
    }

    /// The signature stored for `root`, or an empty one.
    fn signature_or_empty(&self, root: &Path) -> (res: Signature)
        requires
            definitions_wf(self@),
        ensures
            res@ == signature_or_empty(self@.signatures, root@),
            res@.paths.no_duplicates(),
    {
        match self.find_signature(root) {
            Some(i) => {
                proof { lemma_key_pos(self@.signatures, root@, i as int); }
                self.signatures[i].1.copy()
            },
            None => {
                let res = Signature { has_value: false, paths: Vec::new() };
                assert(res@.paths =~= Seq::<Seq<SegmentModel>>::empty());
                res
            },
        }
    }

    /// Adds `p` to the signature of the message or term being walked.
    fn append_signature_path(&mut self, p: Path)
        requires
            definitions_wf(old(self)@),
        ensures
            definitions_wf(final(self)@),
            final(self)@ == with_signature_path(old(self)@, p@),
    {
        let root = Path(copy_root(&self.path_stack));
        let mut sig = self.signature_or_empty(&root);
        let ghost before = sig@.paths;
        let ghost pv = p@;
        if !contains_path(&sig.paths, &p) {
            sig.paths.push(p);
            assert(sig@.paths =~= before.push(pv));
        }
        assert(sig@.paths == insert_path(before, pv));
        self.store_signature(root, sig);
    }

    /// Records whether the message or term being walked has a value.
    fn update_signature_has_value(&mut self, has_value: bool)
        requires
            definitions_wf(old(self)@),
        ensures
            definitions_wf(final(self)@),
            final(self)@ == with_has_value(old(self)@, has_value),
    {
        let root = Path(copy_root(&self.path_stack));
        let mut sig = self.signature_or_empty(&root);
        sig.has_value = has_value;
        self.store_signature(root, sig);
    }

    /// Records a definition segment.
    fn record(&mut self, seg: PathSegment)
        requires
            definitions_wf(old(self)@),
        ensures
            definitions_wf(final(self)@),
            final(self)@ == record(old(self)@, seg@),
    {
        let ghost m = self@;
        push_on_stack(&mut self.path_stack, seg);
        let path = Path(copy_top(&self.path_stack));
        assert(self@ == (DefinitionsModel { path_stack: stack_push(m.path_stack, seg@), ..m }));
        match &self.current_entry {
            Some(e) => {
                let text = e.clone();
                let ghost old_entries = self@.entries;
                proof { lemma_upsert(old_entries, path@, lookup(old_entries, path@).unwrap_or(Seq::empty()).push(text@)); }
                match self.find_entry(&path) {
                    Some(i) => {
                        proof { lemma_key_pos(old_entries, path@, i as int); }
                        let mut texts: Vec<String> = Vec::new();
                        let k = self.entries[i].1.len();
                        let mut j: usize = 0;
                        while j < k
                            invariant
                                i < self.entries.len(),
                                k == self.entries@[i as int].1.len(),
                                j <= k,
                                texts.len() == j,
                                forall|q: int| 0 <= q < j ==> texts@[q]@ == self.entries@[i as int].1@[q]@,
                            decreases k - j,
                        {
                            texts.push(self.entries[i].1[j].clone());
                            j += 1;
                        }
                        let ghost tv = texts@;
                        texts.push(text);
                        assert(views(texts@) =~= views(self.entries@[i as int].1@).push(e@));
                        self.entries.set(i, (path.copy(), texts));
                        assert(self@.entries =~= upsert(old_entries, path@, lookup(old_entries, path@).unwrap_or(Seq::empty()).push(e@)));
                    },
                    None => {
                        let mut texts: Vec<String> = Vec::new();
                        texts.push(text);
                        assert(views(texts@) =~= Seq::<Seq<char>>::empty().push(e@));
                        self.entries.push((path.copy(), texts));
                        assert(self@.entries =~= upsert(old_entries, path@, lookup(old_entries, path@).unwrap_or(Seq::empty()).push(e@)));
                    },
                }
                let ghost t = self@.entries;
                assert forall|q: int| 0 <= q < t.len() implies (#[trigger] t[q]).1.len() > 0 by {
                    if q < old_entries.len() && t[q] == old_entries[q] {
                    }
                }
                self.append_signature_path(path);
            },
            None => {},
        }
    }

    /// Records a reference segment.
    fn push_reference(&mut self, seg: PathSegment)
        requires
            definitions_wf(old(self)@),
        ensures
            definitions_wf(final(self)@),
            final(self)@ == reference(old(self)@, seg@),
    {
        let ghost m = self@;
        push_on_stack(&mut self.reference_stack, seg);
        let path = Path(copy_top(&self.reference_stack));
        self.references.push(path);
        assert(self@.references =~= m.references.push(top(stack_push(m.reference_stack, seg@))));
    }

    /// Applies one walk event.
    pub fn apply(&mut self, event: &WalkEvent)
        requires
            definitions_wf(old(self)@),
        ensures
            definitions_wf(final(self)@),
            final(self)@ == step(old(self)@, event@),
    {
        match event {
            WalkEvent::Enter => {
                enter_stack(&mut self.path_stack);
                enter_stack(&mut self.reference_stack);
            },
            WalkEvent::Exit => {
                exit_stack(&mut self.path_stack);
                exit_stack(&mut self.reference_stack);
            },
            WalkEvent::Entry(text) => {
                self.current_entry = Some(text.clone());
            },
            WalkEvent::Message(name, has_pattern) => {
                self.record(PathSegment::Message(name.clone()));
                self.update_signature_has_value(*has_pattern);
            },
            WalkEvent::Term(name) => {
                self.record(PathSegment::Term(name.clone()));
                self.update_signature_has_value(true);
            },
            WalkEvent::Attribute(name) => {
                self.record(PathSegment::Attribute(name.clone()));
            },
            WalkEvent::Variant(key) => {
                self.record(PathSegment::Variant(concat3("[", key.as_str(), "]")));
            },
            WalkEvent::DefaultVariant(key) => {
                self.record(PathSegment::DefaultVariant(concat3("[", key.as_str(), "]")));
            },
            WalkEvent::MessageReference(name) => {
                self.push_reference(PathSegment::Message(name.clone()));
            },
            WalkEvent::TermReference(name) => {
                self.push_reference(PathSegment::Term(name.clone()));
            },
            WalkEvent::AttributeAccessor(name) => {
                self.push_reference(PathSegment::Attribute(name.clone()));
            },
            WalkEvent::VariableReference(name) => {
                let mut p = copy_root(&self.path_stack);
                p.push(PathSegment::Variable(name.clone()));
                let path = Path(p);
                assert(path@ =~= stack_root(self@.path_stack).push(SegmentModel::Variable(name@)));
                self.append_signature_path(path);
            },
            WalkEvent::FunctionReference(_) => {},
        }
    }

    /// The definitions gathered from a walk.
    pub fn from_events(events: &Vec<WalkEvent>) -> (res: Definitions)
        ensures
            res@ == walk_definitions(events_view(events@)),
            definitions_wf(res@),
    {
        let mut defs = Definitions::new();
        let n = events.len();
        let mut i: usize = 0;
        while i < n
            invariant
                n == events.len(),
                i <= n,
                definitions_wf(defs@),
                defs@ == walk_definitions(events_view(events@).take(i as int)),
            decreases n - i,
        {
            let ghost before = events_view(events@).take(i as int);
            defs.apply(&events[i]);
            assert(events_view(events@).take(i + 1).drop_last() =~= before);
            i += 1;
        }
        assert(events_view(events@).take(n as int) =~= events_view(events@));
        defs
    }
}

/// The views of a sequence of identifiers.
pub open spec fn identifiers_view(s: Seq<QualifiedIdentifier>) -> Seq<Seq<SegmentModel>> {
    s.map_values(|q: QualifiedIdentifier| q@)
}

/// A normalized path `n` is defined more than once when the entries of all
/// defined paths that normalize to `n` number more than one.
pub open spec fn is_duplicate(m: DefinitionsModel, n: Seq<SegmentModel>) -> bool {
    exists|i: int|
        0 <= i < m.entries.len() && normalize_path(#[trigger] m.entries[i].0) == n && (m.entries[i].1.len() > 1
            || exists|j: int|
            0 <= j < m.entries.len() && j != i && normalize_path(#[trigger] m.entries[j].0) == n)
}

/// A reference is invalid when no message or term has its path.
pub open spec fn is_invalid_reference(m: DefinitionsModel, r: Seq<SegmentModel>) -> bool {
    m.references.contains(r) && !has_key(m.signatures, r)
}

/// Every identifier: each message or term, followed by the paths of its
/// signature.
pub open spec fn all_identifiers_of(sigs: Seq<(Seq<SegmentModel>, SignatureModel)>) -> Seq<Seq<SegmentModel>>
    decreases sigs.len(),
{
    if sigs.len() == 0 {
        Seq::empty()
    } else {
        all_identifiers_of(sigs.drop_last()) + seq![sigs.last().0] + sigs.last().1.paths
    }
}

/// The identifiers of a sequence of paths.
fn identifiers_of(paths: &Vec<Path>) -> (res: Vec<QualifiedIdentifier>)
    ensures
        identifiers_view(res@) == paths_view(paths@),
{
    let mut res: Vec<QualifiedIdentifier> = Vec::new();
    let n = paths.len();
    let mut i: usize = 0;
    while i < n
        invariant
            n == paths.len(),
            i <= n,
            res.len() == i,
            forall|j: int| 0 <= j < i ==> res@[j]@ == paths@[j]@,
        decreases n - i,
    {
        res.push(QualifiedIdentifier::from_path(&paths[i]));
        i += 1;
    }
    assert(identifiers_view(res@) =~= paths_view(paths@));
    res
}

/// Whether `q` is among `ids`.
pub fn contains_identifier(ids: &Vec<QualifiedIdentifier>, q: &QualifiedIdentifier) -> (res: bool)
    ensures
        res == identifiers_view(ids@).contains(q@),
{
    let n = ids.len();
    let mut i: usize = 0;
    while i < n
        invariant
            n == ids.len(),
            i <= n,
            forall|j: int| 0 <= j < i ==> ids@[j]@ != q@,
        decreases n - i,
    {
        if ids[i].same_as(q) {
            assert(identifiers_view(ids@)[i as int] == q@);
            return true;
        }
        i += 1;
    }
    assert(!identifiers_view(ids@).contains(q@));
    false
}

impl Definitions {
    /// The paths of all messages and terms, in the order first met.
    pub fn entry_identifiers(&self) -> (res: Vec<QualifiedIdentifier>)
        ensures
            identifiers_view(res@) == keys(self@.signatures),
    {
        let mut res: Vec<QualifiedIdentifier> = Vec::new();
        let n = self.signatures.len();
        let mut i: usize = 0;
        while i < n
            invariant
                n == self.signatures.len(),
                i <= n,
                res.len() == i,
                forall|j: int| 0 <= j < i ==> res@[j]@ == self@.signatures[j].0,
            decreases n - i,
        {
            res.push(QualifiedIdentifier::from_path(&self.signatures[i].0));
            i += 1;
        }
        assert(identifiers_view(res@) =~= keys(self@.signatures));
        res
    }

    /// The signature of a message or term, if it is defined.
    pub fn signature(&self, identifier: &QualifiedIdentifier) -> (res: Option<&Signature>)
        requires
            definitions_wf(self@),
        ensures
            match res {
                Some(s) => lookup(self@.signatures, identifier@) == Some(s@),
                None => lookup(self@.signatures, identifier@) is None,
            },
    {
        match self.find_signature(identifier.path()) {
            Some(i) => {
                proof { lemma_key_pos(self@.signatures, identifier@, i as int); }
                Some(&self.signatures[i].1)
            },
            None => None,
        }
    }

    /// Every identifier: each message or term followed by its attributes,
    /// variants and variables.
    pub fn all_identifiers(&self) -> (res: Vec<QualifiedIdentifier>)
        ensures
            identifiers_view(res@) == all_identifiers_of(self@.signatures),
    {
        let mut res: Vec<QualifiedIdentifier> = Vec::new();
        let n = self.signatures.len();
        let mut i: usize = 0;
        while i < n
            invariant
                n == self.signatures.len(),
                i <= n,
                identifiers_view(res@) == all_identifiers_of(self@.signatures.take(i as int)),
            decreases n - i,
        {
            let ghost before = res@;
            res.push(QualifiedIdentifier::from_path(&self.signatures[i].0));
            let mut more = identifiers_of(self.signatures[i].1.paths());
            let ghost pushed = res@;
            res.append(&mut more);
            assert(self@.signatures.take(i + 1).drop_last() =~= self@.signatures.take(i as int));
            assert(identifiers_view(res@) =~= identifiers_view(before) + seq![self@.signatures[i as int].0]
                + self@.signatures[i as int].1.paths);
            i += 1;
        }
        assert(self@.signatures.take(n as int) =~= self@.signatures);
        res
    }

    /// Every reference, in the order met.
    pub fn references(&self) -> (res: Vec<QualifiedIdentifier>)
        ensures
            identifiers_view(res@) == self@.references,
    {
        identifiers_of(&self.references)
    }

    /// The texts of the entries that define `identifier` (empty when it is
    /// not defined).
    pub fn entries(&self, identifier: &QualifiedIdentifier) -> (res: Vec<String>)
        requires
            definitions_wf(self@),
        ensures
            views(res@) == match lookup(self@.entries, identifier@) {
                Some(t) => t,
                None => Seq::empty(),
            },
    {
        match self.find_entry(identifier.path()) {
            Some(i) => {
                proof { lemma_key_pos(self@.entries, identifier@, i as int); }
                let mut res: Vec<String> = Vec::new();
                let k = self.entries[i].1.len();
                let mut j: usize = 0;
                while j < k
                    invariant
                        i < self.entries.len(),
                        k == self.entries@[i as int].1.len(),
                        j <= k,
                        res.len() == j,
                        forall|q: int| 0 <= q < j ==> res@[q]@ == self.entries@[i as int].1@[q]@,
                    decreases k - j,
                {
                    res.push(self.entries[i].1[j].clone());
                    j += 1;
                }
                assert(views(res@) =~= views(self.entries@[i as int].1@));
                res
            },
            None => {
                let res: Vec<String> = Vec::new();
                assert(views(res@) =~= Seq::<Seq<char>>::empty());
                res
            },
        }
    }

    /// The references to messages, terms or attributes that are not defined,
    /// each once, in the order first met.
    pub fn invalid_references(&self) -> (res: Vec<QualifiedIdentifier>)
        ensures
            identifiers_view(res@) == invalid_references_of(self@),
            identifiers_view(res@).no_duplicates(),
            forall|r: Seq<SegmentModel>| identifiers_view(res@).contains(r) <==> is_invalid_reference(self@, r),
    {
        let mut res: Vec<QualifiedIdentifier> = Vec::new();
        let n = self.references.len();
        let mut i: usize = 0;
        assert(identifiers_view(res@) =~= dedup(undefined_references(self@.references.take(0), self@.signatures)));
        while i < n
            invariant
                n == self.references.len(),
                i <= n,
                identifiers_view(res@) == dedup(undefined_references(self@.references.take(i as int), self@.signatures)),
            decreases n - i,
        {
            let ghost before = identifiers_view(res@);
            let candidate = &self.references[i];
            let q = QualifiedIdentifier::from_path(candidate);
            let defined = self.find_signature(candidate).is_some();
            let seen = contains_identifier(&res, &q);
            proof {
                let t = self@.references.take(i + 1);
                assert(t.drop_last() =~= self@.references.take(i as int));
                assert(t.last() == candidate@);
                let rest = undefined_references(self@.references.take(i as int), self@.signatures);
                assert(before == dedup(rest));
                if defined {
                    assert(undefined_references(t, self@.signatures) == rest);
                } else {
                    assert(undefined_references(t, self@.signatures) == rest.push(candidate@));
                    assert(rest.push(candidate@).drop_last() =~= rest);
                }
            }
            if !defined && !seen {
                res.push(q);
                assert(identifiers_view(res@) =~= before.push(candidate@));
            }
            i += 1;
        }
        assert(self@.references.take(n as int) =~= self@.references);
        proof {
            lemma_dedup(undefined_references(self@.references, self@.signatures));
            lemma_undefined_references(self@.references, self@.signatures);
        }
        res
    }

    /// The normalized identifiers defined more than once, each once, in the
    /// order of their first definition.
    pub fn duplicate_identifiers(&self) -> (res: Vec<QualifiedIdentifier>)
        requires
            definitions_wf(self@),
        ensures
            identifiers_view(res@) == duplicate_identifiers_of(self@),
            identifiers_view(res@).no_duplicates(),
            forall|n: Seq<SegmentModel>| identifiers_view(res@).contains(n) <==> is_duplicate(self@, n),
    {
        let ghost m = self@;
        let n = self.entries.len();
        let mut normalized: Vec<Path> = Vec::new();
        let mut i: usize = 0;
        while i < n
            invariant
                n == self.entries.len(),
                i <= n,
                normalized.len() == i,
                m == self@,
                n == m.entries.len(),
                forall|j: int| 0 <= j < i ==> normalized@[j]@ == normalize_path(m.entries[j].0),
            decreases n - i,
        {
            normalized.push(self.entries[i].0.normalized());
            i += 1;
        }
        let mut res: Vec<QualifiedIdentifier> = Vec::new();
        i = 0;
        assert(identifiers_view(res@) =~= dedup(duplicate_candidates(m, 0)));
        while i < n
            invariant
                n == self.entries.len(),
                n == normalized.len(),
                n == m.entries.len(),
                i <= n,
                m == self@,
                forall|j: int| 0 <= j < n ==> normalized@[j]@ == normalize_path(m.entries[j].0),
                identifiers_view(res@) == dedup(duplicate_candidates(m, i as int)),
            decreases n - i,
        {
            let ghost before = identifiers_view(res@);
            let mut other = false;
            let mut j: usize = 0;
            while j < n
                invariant
                    n == normalized.len(),
                    n == m.entries.len(),
                    i < n,
                    j <= n,
                    forall|k: int| 0 <= k < n ==> normalized@[k]@ == normalize_path(m.entries[k].0),
                    other == exists|k: int| 0 <= k < j && k != i && normalize_path(#[trigger] m.entries[k].0) == normalize_path(m.entries[i as int].0),
                decreases n - j,
            {
                if j != i && normalized[j].same_as(&normalized[i]) {
                    other = true;
                }
                j += 1;
            }
            let duplicated = self.entries[i].1.len() > 1 || other;
            assert(duplicated == duplicated_at(m, i as int)) by {
                if duplicated_at(m, i as int) && m.entries[i as int].1.len() <= 1 {
                    let k = choose|k: int| 0 <= k < m.entries.len() && k != i && normalize_path(#[trigger] m.entries[k].0) == normalize_path(m.entries[i as int].0);
                    assert(0 <= k < n);
                }
            }
            proof {
                let rest = duplicate_candidates(m, i as int);
                assert(before == dedup(rest));
                if duplicated {
                    assert(duplicate_candidates(m, i + 1) == rest.push(normalize_path(m.entries[i as int].0)));
                    assert(rest.push(normalize_path(m.entries[i as int].0)).drop_last() =~= rest);
                } else {
                    assert(duplicate_candidates(m, i + 1) == rest);
                }
            }
            if duplicated {
                let q = QualifiedIdentifier::from_path(&normalized[i]);
                if !contains_identifier(&res, &q) {
                    res.push(q);
                    assert(identifiers_view(res@) =~= before.push(normalize_path(m.entries[i as int].0)));
                }
            }
            i += 1;
        }
        proof {
            lemma_dedup(duplicate_candidates(m, n as int));
            lemma_duplicate_candidates(m, n as int);
            assert forall|x: Seq<SegmentModel>| identifiers_view(res@).contains(x) <==> is_duplicate(m, x) by {
                if is_duplicate(m, x) {
                    let a = choose|a: int| 0 <= a < m.entries.len() && normalize_path(#[trigger] m.entries[a].0) == x && (m.entries[a].1.len() > 1
                        || exists|b: int| 0 <= b < m.entries.len() && b != a && normalize_path(#[trigger] m.entries[b].0) == x);
                    assert(duplicated_at(m, a));
                }
                if duplicate_candidates(m, n as int).contains(x) {
                    let a = choose|a: int| 0 <= a < n && duplicated_at(m, a) && normalize_path(#[trigger] m.entries[a].0) == x;
                    if m.entries[a].1.len() <= 1 {
                        let b = choose|b: int| 0 <= b < m.entries.len() && b != a && normalize_path(#[trigger] m.entries[b].0) == normalize_path(m.entries[a].0);
                        assert(normalize_path(m.entries[b].0) == x);
                    }
                }
            }
        }
        res
    }
}

/// The references, in order, whose path is not a message or term.
pub open spec fn undefined_references(
    refs: Seq<Seq<SegmentModel>>,
    sigs: Seq<(Seq<SegmentModel>, SignatureModel)>,
) -> Seq<Seq<SegmentModel>>
    decreases refs.len(),
{
    if refs.len() == 0 {
        Seq::empty()
    } else {
        let rest = undefined_references(refs.drop_last(), sigs);
        if has_key(sigs, refs.last()) {
            rest
        } else {
            rest.push(refs.last())
        }
    }
}

/// The invalid references, each once, in the order first met.
pub open spec fn invalid_references_of(m: DefinitionsModel) -> Seq<Seq<SegmentModel>> {
    dedup(undefined_references(m.references, m.signatures))
}

/// `undefined_references` holds exactly the undefined references.
pub proof fn lemma_undefined_references(
    refs: Seq<Seq<SegmentModel>>,
    sigs: Seq<(Seq<SegmentModel>, SignatureModel)>,
)
    ensures
        forall|r: Seq<SegmentModel>| undefined_references(refs, sigs).contains(r) <==> (refs.contains(r) && !has_key(sigs, r)),
    decreases refs.len(),
{
    if refs.len() > 0 {
        let p = refs.drop_last();
        lemma_undefined_references(p, sigs);
        assert(refs =~= p.push(refs.last()));
        assert forall|r: Seq<SegmentModel>| undefined_references(refs, sigs).contains(r) <==> (refs.contains(r) && !has_key(sigs, r)) by {
            lemma_push_contains(p, refs.last(), r);
            lemma_push_contains(undefined_references(p, sigs), refs.last(), r);
        }
    }
}

/// The defined path at position `i` shares its normalized form with more
/// than one entry.
pub open spec fn duplicated_at(m: DefinitionsModel, i: int) -> bool {
    m.entries[i].1.len() > 1 || exists|k: int| 0 <= k < m.entries.len() && k != i && normalize_path(#[trigger] m.entries[k].0) == normalize_path(m.entries[i].0)
}

/// The normalized forms of the first `i` defined paths that are duplicated,
/// in order.
pub open spec fn duplicate_candidates(m: DefinitionsModel, i: int) -> Seq<Seq<SegmentModel>>
    decreases i,
{
    if i <= 0 {
        Seq::empty()
    } else {
        let rest = duplicate_candidates(m, i - 1);
        if duplicated_at(m, i - 1) {
            rest.push(normalize_path(m.entries[i - 1].0))
        } else {
            rest
        }
    }
}

/// The duplicated normalized identifiers, each once, in the order of their
/// first definition.
pub open spec fn duplicate_identifiers_of(m: DefinitionsModel) -> Seq<Seq<SegmentModel>> {
    dedup(duplicate_candidates(m, m.entries.len() as int))
}

/// What `duplicate_candidates` holds.
pub proof fn lemma_duplicate_candidates(m: DefinitionsModel, i: int)
    requires
        0 <= i <= m.entries.len(),
    ensures
        forall|x: Seq<SegmentModel>| duplicate_candidates(m, i).contains(x) <==> exists|a: int| 0 <= a < i && duplicated_at(m, a) && normalize_path(#[trigger] m.entries[a].0) == x,
    decreases i,
{
    if i > 0 {
        lemma_duplicate_candidates(m, i - 1);
        assert forall|x: Seq<SegmentModel>| duplicate_candidates(m, i).contains(x) <==> exists|a: int| 0 <= a < i && duplicated_at(m, a) && normalize_path(#[trigger] m.entries[a].0) == x by {
            lemma_push_contains(duplicate_candidates(m, i - 1), normalize_path(m.entries[i - 1].0), x);
            if exists|a: int| 0 <= a < i && duplicated_at(m, a) && normalize_path(#[trigger] m.entries[a].0) == x {
                let a = choose|a: int| 0 <= a < i && duplicated_at(m, a) && normalize_path(#[trigger] m.entries[a].0) == x;
                if a < i - 1 {
                    assert(exists|b: int| 0 <= b < i - 1 && duplicated_at(m, b) && normalize_path(#[trigger] m.entries[b].0) == x);
                }
            }
            if duplicate_candidates(m, i - 1).contains(x) {
                let a = choose|a: int| 0 <= a < i - 1 && duplicated_at(m, a) && normalize_path(#[trigger] m.entries[a].0) == x;
                assert(0 <= a < i && duplicated_at(m, a) && normalize_path(m.entries[a].0) == x);
            }
            if duplicated_at(m, i - 1) && x == normalize_path(m.entries[i - 1].0) {
                assert(normalize_path(m.entries[i - 1].0) == x);
            }
        }
    }
}

} // verus!
