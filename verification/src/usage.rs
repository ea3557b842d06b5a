//! The identifiers a Fluent text defines and uses, each with the entries
//! that mention it, gathered from a walk of its syntax tree.
use vstd::prelude::*;
use crate::assoc::{has_key, keys, keys_unique, lemma_key_pos, lemma_upsert, lookup, upsert};
use crate::document::items_events;
use crate::error::{ErrorModel, LingoraError};
use crate::integrity::{Identifier, IdentifierModel};
use crate::text::views;
use crate::walk::{events_view, fluent_entry_walks, parse_entry_walks, walks_view, EventModel, WalkEvent};

verus! {

/// What the walk has gathered so far.
pub struct VisitorModel {
    /// The entry being walked.
    pub entry: Option<Seq<char>>,
    /// Frames of enclosing identifier names, one per node being walked.
    pub contexts: Seq<Seq<Seq<char>>>,
    /// For each identifier met, the texts of the entries that mention it.
    pub identifiers: Seq<(IdentifierModel, Seq<Seq<char>>)>,
}

/// The names enclosing the node being walked.
pub open spec fn current_context(contexts: Seq<Seq<Seq<char>>>) -> Seq<Seq<char>> {
    if contexts.len() == 0 {
        Seq::empty()
    } else {
        contexts.last()
    }
}

/// An identifier named `stem` is met: it is recorded, within the current
/// names, as mentioned by the current entry, and `stem` becomes an
/// enclosing name. There must be an entry and a frame.
pub open spec fn visit_insert(m: VisitorModel, stem: Seq<char>) -> Option<VisitorModel> {
    match m.entry {
        None => None,
        Some(e) => if m.contexts.len() == 0 {
            None
        } else {
            let id = IdentifierModel { context: m.contexts.last(), name: stem };
            let entries = match lookup(m.identifiers, id) {
                Some(t) => t,
                None => Seq::empty(),
            };
            Some(VisitorModel {
                entry: m.entry,
                contexts: m.contexts.update(m.contexts.len() - 1, m.contexts.last().push(stem)),
                identifiers: upsert(m.identifiers, id, if entries.contains(e) { entries } else { entries.push(e) }),
            })
        },
    }
}

/// The effect of one walk event; `None` where the walk would fail.
pub open spec fn visit_step(m: VisitorModel, e: EventModel) -> Option<VisitorModel> {
    match e {
        EventModel::Enter => Some(VisitorModel { contexts: m.contexts.push(current_context(m.contexts)), ..m }),
        EventModel::Exit => Some(VisitorModel {
            contexts: if m.contexts.len() == 0 { m.contexts } else { m.contexts.drop_last() },
            ..m
        }),
        EventModel::Entry(text) => Some(VisitorModel { entry: Some(text), ..m }),
        EventModel::Message(name, _) => visit_insert(m, name),
        EventModel::Term(name) => visit_insert(m, name),
        EventModel::Attribute(name) => visit_insert(m, name),
        EventModel::Variant(key) => visit_insert(m, "["@ + key + "]"@),
        EventModel::DefaultVariant(key) => visit_insert(m, "*["@ + key + "]"@),
        EventModel::MessageReference(name) => visit_insert(m, name),
        EventModel::TermReference(name) => visit_insert(m, name),
        EventModel::AttributeAccessor(name) => visit_insert(m, name),
        EventModel::VariableReference(name) => visit_insert(m, name),
        EventModel::FunctionReference(name) => visit_insert(m, name),
    }
}

/// Before the walk.
pub open spec fn initial_visitor() -> VisitorModel {
    VisitorModel { entry: None, contexts: Seq::empty(), identifiers: Seq::empty() }
}

/// What a whole walk gathers; `None` where the walk would fail.
pub open spec fn visit_all(events: Seq<EventModel>) -> Option<VisitorModel>
    decreases events.len(),
{
    if events.len() == 0 {
        Some(initial_visitor())
    } else {
        match visit_all(events.drop_last()) {
            Some(m) => visit_step(m, events.last()),
            None => None,
        }
    }
}

/// Gathers the identifiers of a walk.
pub struct IdentifierVisitor {
    entry: Option<String>,
    contexts: Vec<Vec<String>>,
    identifiers: Vec<(Identifier, Vec<String>)>,
}

/// The views of the identifier records.
pub open spec fn records_view(s: Seq<(Identifier, Vec<String>)>) -> Seq<(IdentifierModel, Seq<Seq<char>>)> {
    s.map_values(|r: (Identifier, Vec<String>)| (r.0@, views(r.1@)))
}

/// The views of the context frames.
pub open spec fn frames_view(s: Seq<Vec<String>>) -> Seq<Seq<Seq<char>>> {
    s.map_values(|f: Vec<String>| views(f@))
}

impl View for IdentifierVisitor {
    type V = VisitorModel;

    closed spec fn view(&self) -> VisitorModel {
        VisitorModel {
            entry: match self.entry {
                Some(e) => Some(e@),
                None => None,
            },
            contexts: frames_view(self.contexts@),
            identifiers: records_view(self.identifiers@),
        }
    }
}

/// The texts, each once: `v` added unless already there.
fn push_unique(texts: &mut Vec<String>, v: String)
    ensures
        views(final(texts)@) == if views(old(texts)@).contains(v@) { views(old(texts)@) } else { views(old(texts)@).push(v@) },
{
    let ghost before = views(texts@);
    let n = texts.len();
    let mut i: usize = 0;
    while i < n
        invariant
            n == texts.len(),
            i <= n,
            before == views(texts@),
            forall|j: int| 0 <= j < i ==> before[j] != v@,
        decreases n - i,
    {
        if texts[i].eq(&v) {
            assert(before[i as int] == v@);
            return;
        }
        i += 1;
    }
    let ghost vv = v@;
    texts.push(v);
    assert(views(texts@) =~= before.push(vv));
}

impl IdentifierVisitor {
    /// Nothing gathered yet.
    pub fn new() -> (res: IdentifierVisitor)
        ensures
            res@ == initial_visitor(),
            keys_unique(res@.identifiers),
    {
        let res = IdentifierVisitor { entry: None, contexts: Vec::new(), identifiers: Vec::new() };
        assert(res@.contexts =~= Seq::<Seq<Seq<char>>>::empty());
        assert(res@.identifiers =~= Seq::<(IdentifierModel, Seq<Seq<char>>)>::empty());
        res
    }

    /// Records an identifier named `stem`.
    fn insert(&mut self, stem: String) -> (ok: bool)
        requires
            keys_unique(old(self)@.identifiers),
        ensures
            keys_unique(final(self)@.identifiers),
            match visit_insert(old(self)@, stem@) {
                Some(m) => ok && final(self)@ == m,
                None => !ok,
            },
    {
        let entry = match &self.entry {
            Some(e) => e.clone(),
            None => return false,
        };
        let n = self.contexts.len();
        if n == 0 {
            return false;
        }
        let ghost old_ids = self@.identifiers;
        let context = crate::config::copy_strings(&self.contexts[n - 1]);
        let id = Identifier::from_parts(context, stem.clone());
        let ghost idv = id@;
        let mut found: Option<usize> = None;
        let m = self.identifiers.len();
        let mut k: usize = 0;
        while k < m
            invariant_except_break
                found is None,
            invariant
                m == self.identifiers.len(),
                k <= m,
                old_ids == records_view(self.identifiers@),
                idv == id@,
                forall|j: int| 0 <= j < k ==> old_ids[j].0 != idv,
            ensures
                k <= m,
                match found {
                    Some(p) => p < m && old_ids[p as int].0 == idv,
                    None => forall|j: int| 0 <= j < m ==> old_ids[j].0 != idv,
                },
            decreases m - k,
        {
            assert(old_ids[k as int].0 == self.identifiers@[k as int].0@);
            if self.identifiers[k].0.same_as(&id) {
                found = Some(k);
                break;
            }
            k += 1;
        }
        let ghost ev = entry@;
        proof {
            lemma_upsert(old_ids, idv, {
                let t = match lookup(old_ids, idv) { Some(t) => t, None => Seq::empty() };
                if t.contains(ev) { t } else { t.push(ev) }
            });
        }
        match found {
            Some(p) => {
                proof { lemma_key_pos(old_ids, idv, p as int); }
                let (key, mut texts) = self.identifiers.remove(p);
                push_unique(&mut texts, entry);
                self.identifiers.insert(p, (key, texts));
                assert(records_view(self.identifiers@) =~= upsert(old_ids, idv, {
                    let t = match lookup(old_ids, idv) { Some(t) => t, None => Seq::empty() };
                    if t.contains(ev) { t } else { t.push(ev) }
                }));
            },
            None => {
                assert(!has_key(old_ids, idv));
                let mut texts: Vec<String> = Vec::new();
                texts.push(entry);
                assert(views(texts@) =~= seq![ev]);
                self.identifiers.push((id, texts));
                assert(records_view(self.identifiers@) =~= upsert(old_ids, idv, {
                    let t = match lookup(old_ids, idv) { Some(t) => t, None => Seq::empty() };
                    if t.contains(ev) { t } else { t.push(ev) }
                }));
            },
        }
        let ghost frames = self@.contexts;
        let mut top = self.contexts.pop().unwrap();
        assert(frames_view(self.contexts@) =~= frames.drop_last());
        let ghost topv = views(top@);
        assert(topv == frames.last());
        let ghost sv = stem@;
        top.push(stem);
        assert(views(top@) =~= topv.push(sv));
        self.contexts.push(top);
        assert(frames_view(self.contexts@) =~= frames.update(frames.len() - 1, topv.push(stem@)));
        true
    }

    /// Applies one walk event; `false` where the walk would fail.
    pub fn visit(&mut self, event: &WalkEvent) -> (ok: bool)
        requires
            keys_unique(old(self)@.identifiers),
        ensures
            keys_unique(final(self)@.identifiers),
            match visit_step(old(self)@, event@) {
                Some(m) => ok && final(self)@ == m,
                None => !ok,
            },
    {
        match event {
            WalkEvent::Enter => {
                let ghost frames = self@.contexts;
                let top = match self.contexts.last() {
                    Some(t) => crate::config::copy_strings(t),
                    None => Vec::new(),
                };
                assert(views(top@) == current_context(frames)) by {
                    if frames.len() == 0 {
                        assert(views(top@) =~= Seq::<Seq<char>>::empty());
                    }
                }
                self.contexts.push(top);
                assert(frames_view(self.contexts@) =~= frames.push(current_context(frames)));
                true
            },
            WalkEvent::Exit => {
                let ghost frames = self@.contexts;
                if self.contexts.len() > 0 {
                    let _ = self.contexts.pop();
                    assert(frames_view(self.contexts@) =~= frames.drop_last());
                }
                true
            },
            WalkEvent::Entry(text) => {
                self.entry = Some(text.clone());
                true
            },
            WalkEvent::Message(name, _) => self.insert(name.clone()),
            WalkEvent::Term(name) => self.insert(name.clone()),
            WalkEvent::Attribute(name) => self.insert(name.clone()),
            WalkEvent::Variant(key) => self.insert(crate::text::concat3("[", key.as_str(), "]")),
            WalkEvent::DefaultVariant(key) => self.insert(crate::text::concat3("*[", key.as_str(), "]")),
            WalkEvent::MessageReference(name) => self.insert(name.clone()),
            WalkEvent::TermReference(name) => self.insert(name.clone()),
            WalkEvent::AttributeAccessor(name) => self.insert(name.clone()),
            WalkEvent::VariableReference(name) => self.insert(name.clone()),
            WalkEvent::FunctionReference(name) => self.insert(name.clone()),
        }
    }

    /// The identifiers met, each once, in the order first met.
    pub fn identifiers(&self) -> (res: Vec<Identifier>)
        ensures
            res@.map_values(|i: Identifier| i@) == keys(self@.identifiers),
    {
        let mut res: Vec<Identifier> = Vec::new();
        let n = self.identifiers.len();
        let mut i: usize = 0;
        while i < n
            invariant
                n == self.identifiers.len(),
                i <= n,
                res.len() == i,
                forall|j: int| 0 <= j < i ==> (#[trigger] res@[j])@ == self.identifiers@[j].0@,
            decreases n - i,
        {
            res.push(self.identifiers[i].0.copy());
            i += 1;
        }
        assert(res@.map_values(|i: Identifier| i@) =~= keys(self@.identifiers));
        res
    }

    /// The texts of the entries that mention `identifier`, each once.
    pub fn usages(&self, identifier: &Identifier) -> (res: Vec<String>)
        requires
            keys_unique(self@.identifiers),
        ensures
            views(res@) == match lookup(self@.identifiers, identifier@) {
                Some(t) => t,
                None => Seq::empty(),
            },
    {
        let n = self.identifiers.len();
        let mut i: usize = 0;
        while i < n
            invariant
                n == self.identifiers.len(),
                i <= n,
                forall|j: int| 0 <= j < i ==> self@.identifiers[j].0 != identifier@,
                keys_unique(self@.identifiers),
            decreases n - i,
        {
            if self.identifiers[i].0.same_as(identifier) {
                proof { lemma_key_pos(self@.identifiers, identifier@, i as int); }
                let res = crate::config::copy_strings(&self.identifiers[i].1);
                return res;
            }
            i += 1;
        }
        let res: Vec<String> = Vec::new();
        assert(views(res@) =~= Seq::<Seq<char>>::empty());
        res
    }
}

/// What a Fluent text gives: the walk of the resource made of its entries,
/// or the text of the parser's error.
pub open spec fn file_events(text: Seq<char>) -> Result<Seq<EventModel>, Seq<char>> {
    match fluent_entry_walks(text) {
        Ok(w) => Ok(seq![EventModel::Enter] + items_events(w) + seq![EventModel::Exit]),
        Err(e) => Err(e),
    }
}

/// A parsed Fluent file: the walk of its entries.
pub struct File {
    events: Vec<WalkEvent>,
}

impl View for File {
    type V = Seq<EventModel>;

    closed spec fn view(&self) -> Seq<EventModel> {
        events_view(self.events@)
    }
}

impl File {
    /// Parses a Fluent text; a text the parser rejects is a `Fluent` error
    /// with the parser's message.
    pub fn from_content(text: &str) -> (res: Result<File, LingoraError>)
        ensures
            match file_events(text@) {
                Ok(ev) => res matches Ok(f) && f@ == ev,
                Err(e) => res matches Err(err) && err@ == ErrorModel::Fluent(e),
            },
    {
        match parse_entry_walks(text) {
            Err(e) => Err(LingoraError::Fluent(e)),
            Ok(walks) => {
                let ghost wv = walks_view(walks@);
                let mut events: Vec<WalkEvent> = Vec::new();
                events.push(WalkEvent::Enter);
                let n = walks.len();
                let mut i: usize = 0;
                assert(events_view(events@) =~= seq![EventModel::Enter] + items_events(wv.take(0)));
                while i < n
                    invariant
                        n == walks.len(),
                        i <= n,
                        wv == walks_view(walks@),
                        events_view(events@) == seq![EventModel::Enter] + items_events(wv.take(i as int)),
                    decreases n - i,
                {
                    let ghost before = events_view(events@);
                    events.push(WalkEvent::Enter);
                    let ghost e1 = events_view(events@);
                    assert(e1 =~= before.push(EventModel::Enter));
                    crate::walk::append_events(&mut events, &walks[i]);
                    let ghost e2 = events_view(events@);
                    events.push(WalkEvent::Exit);
                    assert(events_view(events@) =~= e2.push(EventModel::Exit));
                    assert(wv.take(i + 1).drop_last() =~= wv.take(i as int));
                    assert(wv.take(i + 1).last() == events_view(walks@[i as int]@));
                    assert(events_view(events@) =~= seq![EventModel::Enter] + items_events(wv.take(i + 1)));
                    i += 1;
                }
                let ghost body = events_view(events@);
                events.push(WalkEvent::Exit);
                assert(wv.take(n as int) =~= wv);
                assert(events_view(events@) =~= body + seq![EventModel::Exit]);
                Ok(File { events })
            },
        }
    }

    /// Walks the file with a visitor; `None` where the walk fails.
    fn visited(&self) -> (res: Option<IdentifierVisitor>)
        ensures
            match visit_all(self@) {
                Some(m) => res matches Some(v) && v@ == m && keys_unique(v@.identifiers),
                None => res is None,
            },
    {
        let mut visitor = IdentifierVisitor::new();
        let ghost ev = self@;
        let n = self.events.len();
        let mut i: usize = 0;
        assert(ev.take(0) =~= Seq::<EventModel>::empty());
        while i < n
            invariant
                n == self.events.len(),
                i <= n,
                ev == events_view(self.events@),
                keys_unique(visitor@.identifiers),
                visit_all(ev.take(i as int)) == Some(visitor@),
            decreases n - i,
        {
            assert(ev.take(i + 1).drop_last() =~= ev.take(i as int));
            assert(ev.take(i + 1).last() == self.events@[i as int]@);
            if !visitor.visit(&self.events[i]) {
                proof { lemma_visit_all_fails(ev, i as int + 1); }
                return None;
            }
            i += 1;
        }
        assert(ev.take(n as int) =~= ev);
        Some(visitor)
    }

    /// The identifiers the file defines and uses, each once; `None` where
    /// an identifier is met outside an entry.
    pub fn identifiers(&self) -> (res: Option<Vec<Identifier>>)
        ensures
            match visit_all(self@) {
                Some(m) => res matches Some(ids) && ids@.map_values(|i: Identifier| i@) == keys(m.identifiers),
                None => res is None,
            },
    {
        match self.visited() {
            Some(v) => Some(v.identifiers()),
            None => None,
        }
    }

    /// The texts of the entries that mention `identifier`, each once.
    pub fn identifier_usage(&self, identifier: &Identifier) -> (res: Option<Vec<String>>)
        ensures
            match visit_all(self@) {
                Some(m) => res matches Some(t) && views(t@) == match lookup(m.identifiers, identifier@) {
                    Some(t) => t,
                    None => Seq::empty(),
                },
                None => res is None,
            },
    {
        match self.visited() {
            Some(v) => Some(v.usages(identifier)),
            None => None,
        }
    }
}

/// Once a walk fails, every longer walk fails.
proof fn lemma_visit_all_fails(events: Seq<EventModel>, k: int)
    requires
        0 <= k <= events.len(),
        visit_all(events.take(k)) is None,
    ensures
        visit_all(events) is None,
    decreases events.len() - k,
{
    if k < events.len() {
        assert(events.take(k + 1).drop_last() =~= events.take(k));
        lemma_visit_all_fails(events, k + 1);
    } else {
        assert(events.take(k) =~= events);
    }
}

} // verus!
