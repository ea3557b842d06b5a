//! The bridge to the `fluent4rs` parser: a Fluent text is parsed and its
//! syntax tree walked, and the walk is handed to the library as a sequence
//! of plain events.
use vstd::prelude::*;
use fluent4rs::ast::{
    Attribute, AttributeAccessor, DefaultVariant, Entry, FunctionReference, Message,
    MessageReference, Term, TermReference, VariableReference, Variant,
};
use fluent4rs::prelude::{Parser, Visitor, Walker};

verus! {

#[verifier::external_type_specification]
#[verifier::external_body]
pub struct ExEntry(Entry);

#[verifier::external_type_specification]
#[verifier::external_body]
pub struct ExMessage(Message);

#[verifier::external_type_specification]
#[verifier::external_body]
pub struct ExTerm(Term);

#[verifier::external_type_specification]
#[verifier::external_body]
pub struct ExAttribute(Attribute);

#[verifier::external_type_specification]
#[verifier::external_body]
pub struct ExVariant(Variant);

#[verifier::external_type_specification]
#[verifier::external_body]
pub struct ExDefaultVariant(DefaultVariant);

#[verifier::external_type_specification]
#[verifier::external_body]
pub struct ExMessageReference(MessageReference);

#[verifier::external_type_specification]
#[verifier::external_body]
pub struct ExTermReference(TermReference);

#[verifier::external_type_specification]
#[verifier::external_body]
pub struct ExAttributeAccessor(AttributeAccessor);

#[verifier::external_type_specification]
#[verifier::external_body]
pub struct ExVariableReference(VariableReference);

#[verifier::external_type_specification]
#[verifier::external_body]
pub struct ExFunctionReference(FunctionReference);

/// One step of a walk over a Fluent syntax tree, in the order in which the
/// walker reports it. Each node is entered, visited, has its children walked,
/// and is exited.
pub enum WalkEvent {
    /// A node is entered.
    Enter,
    /// A node is left.
    Exit,
    /// An entry, with its source text.
    Entry(String),
    /// A message definition: its name, and whether it has a value pattern.
    Message(String, bool),
    /// A term definition, named with its leading `-`.
    Term(String),
    /// An attribute definition, named with its leading `.`.
    Attribute(String),
    /// A variant of a select expression, with its key.
    Variant(String),
    /// The default variant of a select expression, with its key.
    DefaultVariant(String),
    /// A reference to a message.
    MessageReference(String),
    /// A reference to a term, named with its leading `-`.
    TermReference(String),
    /// An attribute accessor of a reference, named with its leading `.`.
    AttributeAccessor(String),
    /// A reference to a variable, named with its leading `$`.
    VariableReference(String),
    /// A reference to a function.
    FunctionReference(String),
}

/// A walk event, with its text as a view.
pub enum EventModel {
    Enter,
    Exit,
    Entry(Seq<char>),
    Message(Seq<char>, bool),
    Term(Seq<char>),
    Attribute(Seq<char>),
    Variant(Seq<char>),
    DefaultVariant(Seq<char>),
    MessageReference(Seq<char>),
    TermReference(Seq<char>),
    AttributeAccessor(Seq<char>),
    VariableReference(Seq<char>),
    FunctionReference(Seq<char>),
}

impl View for WalkEvent {
    type V = EventModel;

    open spec fn view(&self) -> EventModel {
        match self {
            WalkEvent::Enter => EventModel::Enter,
            WalkEvent::Exit => EventModel::Exit,
            WalkEvent::Entry(s) => EventModel::Entry(s@),
            WalkEvent::Message(s, b) => EventModel::Message(s@, *b),
            WalkEvent::Term(s) => EventModel::Term(s@),
            WalkEvent::Attribute(s) => EventModel::Attribute(s@),
            WalkEvent::Variant(s) => EventModel::Variant(s@),
            WalkEvent::DefaultVariant(s) => EventModel::DefaultVariant(s@),
            WalkEvent::MessageReference(s) => EventModel::MessageReference(s@),
            WalkEvent::TermReference(s) => EventModel::TermReference(s@),
            WalkEvent::AttributeAccessor(s) => EventModel::AttributeAccessor(s@),
            WalkEvent::VariableReference(s) => EventModel::VariableReference(s@),
            WalkEvent::FunctionReference(s) => EventModel::FunctionReference(s@),
        }
    }
}

/// The views of a sequence of events.
pub open spec fn events_view(events: Seq<WalkEvent>) -> Seq<EventModel> {
    events.map_values(|e: WalkEvent| e@)
}

impl WalkEvent {
    /// A copy of this event.
    pub fn copy(&self) -> (res: WalkEvent)
        ensures
            res@ == self@,
    {
        match self {
            WalkEvent::Enter => WalkEvent::Enter,
            WalkEvent::Exit => WalkEvent::Exit,
            WalkEvent::Entry(s) => WalkEvent::Entry(s.clone()),
            WalkEvent::Message(s, b) => WalkEvent::Message(s.clone(), *b),
            WalkEvent::Term(s) => WalkEvent::Term(s.clone()),
            WalkEvent::Attribute(s) => WalkEvent::Attribute(s.clone()),
            WalkEvent::Variant(s) => WalkEvent::Variant(s.clone()),
            WalkEvent::DefaultVariant(s) => WalkEvent::DefaultVariant(s.clone()),
            WalkEvent::MessageReference(s) => WalkEvent::MessageReference(s.clone()),
            WalkEvent::TermReference(s) => WalkEvent::TermReference(s.clone()),
            WalkEvent::AttributeAccessor(s) => WalkEvent::AttributeAccessor(s.clone()),
            WalkEvent::VariableReference(s) => WalkEvent::VariableReference(s.clone()),
            WalkEvent::FunctionReference(s) => WalkEvent::FunctionReference(s.clone()),
        }
    }
}

/// Appends copies of `src`'s events to `dst`.
pub fn append_events(dst: &mut Vec<WalkEvent>, src: &Vec<WalkEvent>)
    ensures
        events_view(final(dst)@) == events_view(old(dst)@) + events_view(src@),
{
    let ghost start = dst@;
    let n = src.len();
    let mut i: usize = 0;
    while i < n
        invariant
            n == src.len(),
            i <= n,
            dst@.len() == start.len() + i,
            forall|j: int| 0 <= j < start.len() ==> dst@[j]@ == start[j]@,
            forall|j: int| 0 <= j < i ==> dst@[start.len() + j]@ == src@[j]@,
        decreases n - i,
    {
        dst.push(src[i].copy());
        i += 1;
    }
    assert(events_view(dst@) =~= events_view(start) + events_view(src@));
}

/// Gathers the events of a walk.
pub struct Recorder {
    pub events: Vec<WalkEvent>,
}

/// The event of visiting an entry: its source text (`Entry`'s `Display`).
#[verifier::external_body]
fn entry_event(entry: &Entry) -> (res: WalkEvent)
    ensures
        res is Entry,
{
    WalkEvent::Entry(entry.to_string())
}

/// The event of visiting a message: `Message::identifier_name` and whether
/// `Message::pattern` is present.
#[verifier::external_body]
fn message_event(message: &Message) -> (res: WalkEvent)
    ensures
        res is Message,
{
    WalkEvent::Message(message.identifier_name(), message.pattern().is_some())
}

/// The event of visiting a term: `Term::identifier_name`.
#[verifier::external_body]
fn term_event(term: &Term) -> (res: WalkEvent)
    ensures
        res is Term,
{
    WalkEvent::Term(term.identifier_name())
}

/// The event of visiting an attribute: `Attribute::identifier_name`.
#[verifier::external_body]
fn attribute_event(attribute: &Attribute) -> (res: WalkEvent)
    ensures
        res is Attribute,
{
    WalkEvent::Attribute(attribute.identifier_name())
}

/// The event of visiting a variant: the text of `Variant::variant_key`.
#[verifier::external_body]
fn variant_event(variant: &Variant) -> (res: WalkEvent)
    ensures
        res is Variant,
{
    WalkEvent::Variant(variant.variant_key().to_string())
}

/// The event of visiting a default variant: the text of
/// `DefaultVariant::variant_key`.
#[verifier::external_body]
fn default_variant_event(variant: &DefaultVariant) -> (res: WalkEvent)
    ensures
        res is DefaultVariant,
{
    WalkEvent::DefaultVariant(variant.variant_key().to_string())
}

/// The event of visiting a message reference: `MessageReference::identifier_name`.
#[verifier::external_body]
fn message_reference_event(reference: &MessageReference) -> (res: WalkEvent)
    ensures
        res is MessageReference,
{
    WalkEvent::MessageReference(reference.identifier_name())
}

/// The event of visiting a term reference: `TermReference::identifier_name`.
#[verifier::external_body]
fn term_reference_event(reference: &TermReference) -> (res: WalkEvent)
    ensures
        res is TermReference,
{
    WalkEvent::TermReference(reference.identifier_name())
}

/// The event of visiting an attribute accessor: `AttributeAccessor::identifier_name`.
#[verifier::external_body]
fn attribute_accessor_event(accessor: &AttributeAccessor) -> (res: WalkEvent)
    ensures
        res is AttributeAccessor,
{
    WalkEvent::AttributeAccessor(accessor.identifier_name())
}

/// The event of visiting a variable reference: `VariableReference::identifier_name`.
#[verifier::external_body]
fn variable_reference_event(reference: &VariableReference) -> (res: WalkEvent)
    ensures
        res is VariableReference,
{
    WalkEvent::VariableReference(reference.identifier_name())
}

/// The event of visiting a function reference: `FunctionReference::identifier_name`.
#[verifier::external_body]
fn function_reference_event(reference: &FunctionReference) -> (res: WalkEvent)
    ensures
        res is FunctionReference,
{
    WalkEvent::FunctionReference(reference.identifier_name())
}

impl Visitor for Recorder {
    fn enter(&mut self)
        ensures
            final(self).events@ == old(self).events@.push(WalkEvent::Enter),
    {
        self.events.push(WalkEvent::Enter);
    }

    fn exit(&mut self)
        ensures
            final(self).events@ == old(self).events@.push(WalkEvent::Exit),
    {
        self.events.push(WalkEvent::Exit);
    }

    fn visit_entry(&mut self, entry: &Entry)
        ensures
            final(self).events@.len() == old(self).events@.len() + 1,
            final(self).events@.take(old(self).events@.len() as int) == old(self).events@,
            final(self).events@.last() is Entry,
    {
        self.events.push(entry_event(entry));
    }

    fn visit_message(&mut self, message: &Message)
        ensures
            final(self).events@.len() == old(self).events@.len() + 1,
            final(self).events@.take(old(self).events@.len() as int) == old(self).events@,
            final(self).events@.last() is Message,
    {
        self.events.push(message_event(message));
    }

    fn visit_term(&mut self, term: &Term)
        ensures
            final(self).events@.len() == old(self).events@.len() + 1,
            final(self).events@.take(old(self).events@.len() as int) == old(self).events@,
            final(self).events@.last() is Term,
    {
        self.events.push(term_event(term));
    }

    fn visit_attribute(&mut self, attribute: &Attribute)
        ensures
            final(self).events@.len() == old(self).events@.len() + 1,
            final(self).events@.take(old(self).events@.len() as int) == old(self).events@,
            final(self).events@.last() is Attribute,
    {
        self.events.push(attribute_event(attribute));
    }

    fn visit_variant(&mut self, variant: &Variant)
        ensures
            final(self).events@.len() == old(self).events@.len() + 1,
            final(self).events@.take(old(self).events@.len() as int) == old(self).events@,
            final(self).events@.last() is Variant,
    {
        self.events.push(variant_event(variant));
    }

    fn visit_default_variant(&mut self, variant: &DefaultVariant)
        ensures
            final(self).events@.len() == old(self).events@.len() + 1,
            final(self).events@.take(old(self).events@.len() as int) == old(self).events@,
            final(self).events@.last() is DefaultVariant,
    {
        self.events.push(default_variant_event(variant));
    }

    fn visit_message_reference(&mut self, reference: &MessageReference)
        ensures
            final(self).events@.len() == old(self).events@.len() + 1,
            final(self).events@.take(old(self).events@.len() as int) == old(self).events@,
            final(self).events@.last() is MessageReference,
    {
        self.events.push(message_reference_event(reference));
    }

    fn visit_term_reference(&mut self, reference: &TermReference)
        ensures
            final(self).events@.len() == old(self).events@.len() + 1,
            final(self).events@.take(old(self).events@.len() as int) == old(self).events@,
            final(self).events@.last() is TermReference,
    {
        self.events.push(term_reference_event(reference));
    }

    fn visit_attribute_accessor(&mut self, accessor: &AttributeAccessor)
        ensures
            final(self).events@.len() == old(self).events@.len() + 1,
            final(self).events@.take(old(self).events@.len() as int) == old(self).events@,
            final(self).events@.last() is AttributeAccessor,
    {
        self.events.push(attribute_accessor_event(accessor));
    }

    fn visit_variable_reference(&mut self, reference: &VariableReference)
        ensures
            final(self).events@.len() == old(self).events@.len() + 1,
            final(self).events@.take(old(self).events@.len() as int) == old(self).events@,
            final(self).events@.last() is VariableReference,
    {
        self.events.push(variable_reference_event(reference));
    }

    fn visit_function_reference(&mut self, reference: &FunctionReference)
        ensures
            final(self).events@.len() == old(self).events@.len() + 1,
            final(self).events@.take(old(self).events@.len() as int) == old(self).events@,
            final(self).events@.last() is FunctionReference,
    {
        self.events.push(function_reference_event(reference));
    }
}

/// What parsing a Fluent text gives: for each of its entries, in order, the
/// events of a walk over that entry; or the text of the parser's error.
pub uninterp spec fn fluent_entry_walks(text: Seq<char>) -> Result<Seq<Seq<EventModel>>, Seq<char>>;

/// The views of a sequence of walks.
pub open spec fn walks_view(walks: Seq<Vec<WalkEvent>>) -> Seq<Seq<EventModel>> {
    walks.map_values(|w: Vec<WalkEvent>| events_view(w@))
}

/// Parses `text` with `fluent4rs::prelude::Parser::parse` (junk is an
/// error) and walks each entry of the resource (`Resource::entries`) with
/// `Walker::walk`, recording the events. On a parse error, hands back the
/// error's `Display` text. The contract names the outcome
/// `fluent_entry_walks(text)`: the Fluent grammar is not spelled out here.
#[verifier::external_body]
pub(crate) fn parse_entry_walks(text: &str) -> (res: Result<Vec<Vec<WalkEvent>>, String>)
    ensures
        match res {
            Ok(walks) => fluent_entry_walks(text@) == Ok::<Seq<Seq<EventModel>>, Seq<char>>(walks_view(walks@)),
            Err(e) => fluent_entry_walks(text@) == Err::<Seq<Seq<EventModel>>, Seq<char>>(e@),
        },
{
    match Parser::parse(text) {
        Ok(resource) => Ok(resource.entries().into_iter().map(|entry| {
            let mut recorder = Recorder { events: Vec::new() };
            Walker::walk(entry, &mut recorder);
            recorder.events
        }).collect()),
        Err(error) => Err(error.to_string()),
    }
}

} // verus!
