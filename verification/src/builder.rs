//! The tree builder: a stack of open elements and a cursor, driven by events.
use crate::error::ConvertError;
use crate::event::{EventView, XmlEvent};
use crate::tree::{empty_tree, put, Tree};
use crate::value::StructuredValue;
use vstd::prelude::*;

verus! {

/// The builder as a mathematical object.
pub struct State {
    /// One frame per open element, outermost first: the element's tag name
    /// and the value that was being built when it opened.
    pub stack: Seq<(Seq<char>, Tree)>,
    /// The value of the innermost open element, as far as it has been built.
    pub cursor: Tree,
}

/// The state before any event: no open element, an empty mapping for the
/// document.
pub open spec fn initial() -> State {
    State { stack: Seq::empty(), cursor: empty_tree() }
}

/// `parent` after the element `tag` closed with value `child`: a mapping
/// stores the child under the tag, a scalar stays as it is.
pub open spec fn attach(parent: Tree, tag: Seq<char>, child: Tree) -> Tree {
    match parent {
        Tree::Mapping(entries) => Tree::Mapping(put(entries, tag, child)),
        Tree::Scalar(_) => parent,
    }
}

/// The state after one event.
pub open spec fn step(state: State, event: EventView) -> State {
    match event {
        EventView::StartElement(tag) => State {
            stack: state.stack.push((tag, state.cursor)),
            cursor: empty_tree(),
        },
        EventView::Text(content) => if content.len() > 0 {
            State { stack: state.stack, cursor: Tree::Scalar(content) }
        } else {
            state
        },
        EventView::EndElement => if state.stack.len() > 0 {
            State {
                stack: state.stack.drop_last(),
                cursor: attach(state.stack.last().1, state.stack.last().0, state.cursor),
            }
        } else {
            state
        },
        EventView::EndOfDocument => state,
        EventView::Other => state,
    }
}

/// The state after a sequence of events, taken in order.
pub open spec fn run(state: State, events: Seq<EventView>) -> State
    decreases events.len(),
{
    if events.len() == 0 {
        state
    } else {
        step(run(state, events.drop_last()), events.last())
    }
}

/// What the events of a whole document have built: the cursor, unless an
/// element is still open.
pub open spec fn finish(state: State) -> Option<Tree> {
    if state.stack.len() == 0 {
        Some(state.cursor)
    } else {
        None
    }
}

/// The number of elements that are open after a sequence of events: a start
/// opens one, an end closes one if any is open.
pub open spec fn nesting_depth(events: Seq<EventView>) -> nat
    decreases events.len(),
{
    if events.len() == 0 {
        0
    } else {
        let before = nesting_depth(events.drop_last());
        match events.last() {
            EventView::StartElement(_) => before + 1,
            EventView::EndElement => if before > 0 {
                (before - 1) as nat
            } else {
                0
            },
            _ => before,
        }
    }
}

/// Running a single event is one step.
pub proof fn lemma_run_one(state: State, event: EventView)
    ensures
        run(state, seq![event]) == step(state, event),
{
    let events = seq![event];
    assert(run(state, events.drop_last()) == state);
}

/// Running two sequences one after the other is running their
/// concatenation.
pub proof fn lemma_run_concat(state: State, first: Seq<EventView>, second: Seq<EventView>)
    ensures
        run(state, first + second) == run(run(state, first), second),
    decreases second.len(),
{
    if second.len() == 0 {
    } else {
        assert((first + second).drop_last() =~= first + second.drop_last());
        lemma_run_concat(state, first, second.drop_last());
    }
}

/// Whether an event leaves every state as it is: empty text, other markup,
/// the end of the document.
pub open spec fn is_silent(event: EventView) -> bool {
    match event {
        EventView::Text(content) => content.len() == 0,
        EventView::Other => true,
        EventView::EndOfDocument => true,
        _ => false,
    }
}

/// A silent event changes nothing, wherever it stands among other events.
pub proof fn lemma_silent_event(
    state: State,
    before: Seq<EventView>,
    event: EventView,
    after: Seq<EventView>,
)
    requires
        is_silent(event),
    ensures
        run(state, before + seq![event] + after) == run(state, before + after),
{
    lemma_run_concat(state, before + seq![event], after);
    lemma_run_concat(state, before, seq![event]);
    lemma_run_one(run(state, before), event);
    lemma_run_concat(state, before, after);
}

/// The stack is as deep as the document is nested, after every event.
pub proof fn lemma_depth(events: Seq<EventView>)
    ensures
        run(initial(), events).stack.len() == nesting_depth(events),
    decreases events.len(),
{
    if events.len() > 0 {
        lemma_depth(events.drop_last());
    }
}

/// An open element: its tag name, and the value that was being built when
/// it opened.
pub struct Frame {
    pub tag_name: String,
    pub parent_value: StructuredValue,
}

impl View for Frame {
    type V = (Seq<char>, Tree);

    open spec fn view(&self) -> (Seq<char>, Tree) {
        (self.tag_name@, self.parent_value@)
    }
}

/// Builds a structured value from events.
pub struct TreeBuilder {
    stack: Vec<Frame>,
    cursor: StructuredValue,
}

impl View for TreeBuilder {
    type V = State;

    closed spec fn view(&self) -> State {
        State { stack: self.stack@.map_values(|f: Frame| f@), cursor: self.cursor@ }
    }
}

impl TreeBuilder {
    /// A builder that has seen no event.
    pub fn new() -> (builder: TreeBuilder)
        ensures
            builder@ == initial(),
    {
        let builder = TreeBuilder { stack: Vec::new(), cursor: StructuredValue::empty() };
        assert(builder.stack@.map_values(|f: Frame| f@) =~= Seq::empty());
        builder
    }

    /// The number of open elements.
    pub fn depth(&self) -> (n: usize)
        ensures
            n == self@.stack.len(),
    {
        self.stack.len()
    }

    /// The value of the innermost open element, as far as it has been
    /// built.
    pub fn cursor(&self) -> (value: &StructuredValue)
        ensures
            value@ == self@.cursor,
    {
        &self.cursor
    }

    /// Takes one event.
    pub fn consume(&mut self, event: XmlEvent)
        ensures
            final(self)@ == step(old(self)@, event@),
    {
        let ghost before = self.stack@;
        match event {
            XmlEvent::StartElement(tag) => {
                let mut parent = StructuredValue::empty();
                std::mem::swap(&mut self.cursor, &mut parent);
                self.stack.push(Frame { tag_name: tag, parent_value: parent });
                assert(self.stack@.map_values(|f: Frame| f@) =~= before.map_values(
                    |f: Frame| f@,
                ).push((tag@, parent@)));
            },
            XmlEvent::Text(content) => {
                if !content.as_str().is_empty() {
                    self.cursor = StructuredValue::Scalar(content);
                }
            },
            XmlEvent::EndElement => {
                if let Some(frame) = self.stack.pop() {
                    assert(self.stack@.map_values(|f: Frame| f@) =~= before.map_values(
                        |f: Frame| f@,
                    ).drop_last());
                    let mut child = frame.parent_value;
                    std::mem::swap(&mut self.cursor, &mut child);
                    match &mut self.cursor {
                        StructuredValue::Mapping(mapping) => {
                            mapping.insert(frame.tag_name, child);
                        },
                        StructuredValue::Scalar(_) => {},
                    }
                }
            },
            XmlEvent::EndOfDocument => {},
            XmlEvent::Other => {},
        }
    }

    /// Ends the document. With every element closed the cursor is the
    /// document; an element that is still open makes the document malformed.
    pub fn finish(self) -> (r: Result<StructuredValue, ConvertError>)
        ensures
            match r {
                Ok(value) => finish(self@) == Some(value@),
                Err(ConvertError::XmlParse(_)) => finish(self@) is None,
                Err(ConvertError::Serialization(_)) => false,
            },
    {
        if self.stack.len() == 0 {
            Ok(self.cursor)
        } else {
            Err(ConvertError::XmlParse("unexpected end of document: an element is not closed".to_owned()))
        }
    }
}

} // verus!
