//! What the conversion does to a document, stated over a model of XML
//! content and proved of the event-driven builder.
use crate::builder::{attach, initial, lemma_run_concat, lemma_run_one, run, step, State};
use crate::convert::drive;
use crate::event::{EventView, Reading};
use crate::tree::{
    empty_tree, lemma_lookup_after_put, lemma_put_absent, lookup, put, Entries, Tree,
};
use vstd::prelude::*;

verus! {

/// A piece of XML content.
pub enum Xml {
    /// An element: its tag name and its content, in document order.
    Element(Seq<char>, Seq<Xml>),
    /// Character data.
    Text(Seq<char>),
    /// A comment, a processing instruction, a declaration, a CDATA section.
    Other,
}

/// The tag name of an element.
pub open spec fn name_of(node: Xml) -> Seq<char> {
    match node {
        Xml::Element(name, _) => name,
        _ => Seq::empty(),
    }
}

/// The content of an element.
pub open spec fn content_of(node: Xml) -> Seq<Xml> {
    match node {
        Xml::Element(_, content) => content,
        _ => Seq::empty(),
    }
}

/// The events that a piece of content is read as.
pub open spec fn events_of(node: Xml) -> Seq<EventView>
    decreases node,
{
    match node {
        Xml::Element(name, content) => seq![EventView::StartElement(name)] + events_of_all(content)
            + seq![EventView::EndElement],
        Xml::Text(text) => seq![EventView::Text(text)],
        Xml::Other => seq![EventView::Other],
    }
}

/// The events that a run of content is read as.
pub open spec fn events_of_all(content: Seq<Xml>) -> Seq<EventView>
    decreases content,
{
    if content.len() == 0 {
        Seq::empty()
    } else {
        events_of_all(content.drop_last()) + events_of(content.last())
    }
}

/// The value being built, after one more piece of content: text replaces it,
/// an element is attached to it under its tag name, anything else leaves it.
pub open spec fn absorb(cursor: Tree, node: Xml) -> Tree
    decreases node,
{
    match node {
        Xml::Element(name, content) => attach(cursor, name, absorb_all(empty_tree(), content)),
        Xml::Text(text) => if text.len() > 0 {
            Tree::Scalar(text)
        } else {
            cursor
        },
        Xml::Other => cursor,
    }
}

/// The value being built, after a run of content.
pub open spec fn absorb_all(cursor: Tree, content: Seq<Xml>) -> Tree
    decreases content,
{
    if content.len() == 0 {
        cursor
    } else {
        absorb(absorb_all(cursor, content.drop_last()), content.last())
    }
}

/// The value of an element: what its content builds from an empty mapping.
pub open spec fn value_of(node: Xml) -> Tree {
    absorb_all(empty_tree(), content_of(node))
}

/// The readings of a document whose content is `content`: its events, then
/// the end of the document.
pub open spec fn document_readings(content: Seq<Xml>) -> Seq<Reading> {
    events_of_all(content).map_values(|e: EventView| Reading::Event(e)).push(
        Reading::Event(EventView::EndOfDocument),
    )
}

/// What the last piece of a run of content does to the value built by the
/// pieces before it.
pub proof fn lemma_absorb_last(cursor: Tree, content: Seq<Xml>)
    requires
        content.len() > 0,
    ensures
        ({
            let before = absorb_all(cursor, content.drop_last());
            let after = absorb_all(cursor, content);
            match content.last() {
                Xml::Element(name, _) => after == attach(before, name, value_of(content.last())),
                Xml::Text(text) => after == if text.len() > 0 {
                    Tree::Scalar(text)
                } else {
                    before
                },
                Xml::Other => after == before,
            }
        }),
{
    let before = absorb_all(cursor, content.drop_last());
    assert(absorb_all(cursor, content) == absorb(before, content.last()));
}

/// The events of content never hold the end of the document.
pub proof fn lemma_events_are_inner(node: Xml)
    ensures
        forall|i: int|
            0 <= i < events_of(node).len() ==> #[trigger] events_of(node)[i]
                != EventView::EndOfDocument,
    decreases node,
{
    if let Xml::Element(_, content) = node {
        lemma_all_events_are_inner(content);
    }
}

/// The events of a run of content never hold the end of the document.
pub proof fn lemma_all_events_are_inner(content: Seq<Xml>)
    ensures
        forall|i: int|
            0 <= i < events_of_all(content).len() ==> #[trigger] events_of_all(content)[i]
                != EventView::EndOfDocument,
    decreases content,
{
    if content.len() > 0 {
        lemma_all_events_are_inner(content.drop_last());
        lemma_events_are_inner(content.last());
    }
}

/// The events of a piece of content leave the stack as it was and move the
/// cursor to what `absorb` says.
pub proof fn lemma_run_node(state: State, node: Xml)
    ensures
        run(state, events_of(node)) == (State {
            stack: state.stack,
            cursor: absorb(state.cursor, node),
        }),
    decreases node,
{
    match node {
        Xml::Element(name, content) => {
            let start = seq![EventView::StartElement(name)];
            let inner = events_of_all(content);
            let end = seq![EventView::EndElement];
            let opened = step(state, EventView::StartElement(name));
            lemma_run_concat(state, start + inner, end);
            lemma_run_concat(state, start, inner);
            lemma_run_one(state, EventView::StartElement(name));
            lemma_run_content(opened, content);
            lemma_run_one(run(opened, inner), EventView::EndElement);
            assert(opened.stack.drop_last() =~= state.stack);
        },
        Xml::Text(text) => {
            lemma_run_one(state, EventView::Text(text));
        },
        Xml::Other => {
            lemma_run_one(state, EventView::Other);
        },
    }
}

/// The events of a run of content leave the stack as it was and move the
/// cursor to what `absorb_all` says.
pub proof fn lemma_run_content(state: State, content: Seq<Xml>)
    ensures
        run(state, events_of_all(content)) == (State {
            stack: state.stack,
            cursor: absorb_all(state.cursor, content),
        }),
    decreases content,
{
    if content.len() > 0 {
        lemma_run_content(state, content.drop_last());
        lemma_run_concat(state, events_of_all(content.drop_last()), events_of(content.last()));
        lemma_run_node(run(state, events_of_all(content.drop_last())), content.last());
    }
}

/// Driving a builder through events that do not end the document is running
/// it on them.
pub proof fn lemma_drive_events(state: State, events: Seq<EventView>, rest: Seq<Reading>)
    requires
        forall|i: int| 0 <= i < events.len() ==> events[i] != EventView::EndOfDocument,
    ensures
        drive(state, events.map_values(|e: EventView| Reading::Event(e)) + rest) == drive(
            run(state, events),
            rest,
        ),
    decreases events.len(),
{
    let readings = events.map_values(|e: EventView| Reading::Event(e));
    if events.len() > 0 {
        let tail = events.skip(1);
        assert((readings + rest).skip(1) =~= tail.map_values(|e: EventView| Reading::Event(e))
            + rest);
        lemma_drive_events(step(state, events[0]), tail, rest);
        assert(events =~= seq![events[0]] + tail);
        lemma_run_concat(state, seq![events[0]], tail);
        lemma_run_one(state, events[0]);
    }
}

/// A document whose content is well nested converts, and its value is what
/// its content builds from an empty mapping.
pub proof fn lemma_document_converts(content: Seq<Xml>)
    ensures
        drive(initial(), document_readings(content)) == Some(absorb_all(empty_tree(), content)),
{
    let events = events_of_all(content);
    let last = seq![Reading::Event(EventView::EndOfDocument)];
    lemma_all_events_are_inner(content);
    lemma_drive_events(initial(), events, last);
    lemma_run_content(initial(), content);
    assert(document_readings(content) =~= events.map_values(|e: EventView| Reading::Event(e))
        + last);
}

/// Content that is one piece of text, and not empty.
pub open spec fn is_leaf_text(content: Seq<Xml>) -> bool {
    content.len() == 1 && content[0] is Text && content[0]->Text_0.len() > 0
}

/// Content made of elements only, no two of them with the same tag name.
pub open spec fn is_distinct_elements(content: Seq<Xml>) -> bool {
    &&& forall|i: int| 0 <= i < content.len() ==> (#[trigger] content[i]) is Element
    &&& forall|i: int, j: int|
        0 <= i < j < content.len() ==> name_of(#[trigger] content[i]) != name_of(
            #[trigger] content[j],
        )
}

/// An element without mixed content and without repeated sibling names, at
/// every level: its content is one piece of text, or elements with distinct
/// tag names that are themselves of this kind.
pub open spec fn is_plain(node: Xml) -> bool
    decreases node,
{
    match node {
        Xml::Element(_, content) => is_plain_content(content),
        _ => false,
    }
}

/// Content of a plain element.
pub open spec fn is_plain_content(content: Seq<Xml>) -> bool
    decreases content,
{
    is_leaf_text(content) || (is_distinct_elements(content) && forall|i: int|
        0 <= i < content.len() ==> is_plain(#[trigger] content[i]))
}

/// The tree that has the shape of a plain element: its text as a scalar, or
/// a mapping with one entry per child, in document order.
pub open spec fn mirror(node: Xml) -> Tree
    decreases node,
{
    match node {
        Xml::Element(_, content) => if is_leaf_text(content) {
            Tree::Scalar(content[0]->Text_0)
        } else {
            Tree::Mapping(mirror_entries(content))
        },
        _ => empty_tree(),
    }
}

/// One entry per element, in order: its tag name and its mirror.
pub open spec fn mirror_entries(content: Seq<Xml>) -> Entries
    decreases content,
{
    if content.len() == 0 {
        Seq::empty()
    } else {
        mirror_entries(content.drop_last()).push(
            (name_of(content.last()), mirror(content.last())),
        )
    }
}

/// `mirror_entries` has an entry for each element, at the element's place.
pub proof fn lemma_mirror_entries(content: Seq<Xml>)
    ensures
        mirror_entries(content).len() == content.len(),
        forall|i: int|
            0 <= i < content.len() ==> #[trigger] mirror_entries(content)[i] == (
                name_of(content[i]),
                mirror(content[i]),
            ),
    decreases content.len(),
{
    if content.len() > 0 {
        lemma_mirror_entries(content.drop_last());
    }
}

/// The value of a plain element is its mirror.
pub proof fn lemma_plain_value(node: Xml)
    requires
        is_plain(node),
    ensures
        value_of(node) == mirror(node),
    decreases node, 1nat, 0nat,
{
    let content = content_of(node);
    if is_leaf_text(content) {
        lemma_absorb_last(empty_tree(), content);
    } else {
        lemma_plain_children(node, content.len() as int);
        assert(content.take(content.len() as int) =~= content);
    }
}

/// The first `n` children of a plain element that holds elements build the
/// mapping of their mirrors.
pub proof fn lemma_plain_children(node: Xml, n: int)
    requires
        is_plain(node),
        !is_leaf_text(content_of(node)),
        0 <= n <= content_of(node).len(),
    ensures
        absorb_all(empty_tree(), content_of(node).take(n)) == Tree::Mapping(
            mirror_entries(content_of(node).take(n)),
        ),
    decreases node, 0nat, n,
{
    let content = content_of(node);
    let taken = content.take(n);
    if n > 0 {
        let child = content[n - 1];
        let earlier = content.take(n - 1);
        assert(taken.drop_last() =~= earlier);
        lemma_plain_children(node, n - 1);
        lemma_plain_value(child);
        lemma_absorb_last(empty_tree(), taken);
        lemma_mirror_entries(earlier);
        lemma_put_absent(mirror_entries(earlier), name_of(child), mirror(child));
    }
}

/// Shape: a document that is one plain element converts to a mapping with
/// one entry, the element's tag name with the element's mirror. Nesting and
/// order are those of the document and every leaf text is kept as it is.
pub proof fn lemma_plain_document_is_mirrored(root: Xml)
    requires
        is_plain(root),
    ensures
        drive(initial(), document_readings(seq![root])) == Some(
            Tree::Mapping(seq![(name_of(root), mirror(root))]),
        ),
{
    let content = seq![root];
    lemma_document_converts(content);
    lemma_plain_value(root);
    lemma_absorb_last(empty_tree(), content);
}

/// Scalar-only document: one element that holds text converts to that text
/// under the element's tag name.
pub proof fn lemma_scalar_document(name: Seq<char>, text: Seq<char>)
    requires
        text.len() > 0,
    ensures
        drive(initial(), document_readings(seq![Xml::Element(name, seq![Xml::Text(text)])]))
            == Some(Tree::Mapping(seq![(name, Tree::Scalar(text))])),
{
    let root = Xml::Element(name, seq![Xml::Text(text)]);
    lemma_plain_document_is_mirrored(root);
}

/// Empty element: an element without content is stored as an empty mapping
/// under its tag name.
pub proof fn lemma_empty_element(entries: Entries, name: Seq<char>)
    ensures
        absorb(Tree::Mapping(entries), Xml::Element(name, Seq::empty())) == Tree::Mapping(
            put(entries, name, empty_tree()),
        ),
{
}

/// Content without text.
pub open spec fn has_no_text(content: Seq<Xml>) -> bool {
    forall|i: int| 0 <= i < content.len() ==> !((#[trigger] content[i]) is Text)
}

/// Content without text, absorbed by a mapping, gives a mapping.
pub proof fn lemma_siblings_build_mapping(entries: Entries, content: Seq<Xml>)
    requires
        has_no_text(content),
    ensures
        absorb_all(Tree::Mapping(entries), content) is Mapping,
    decreases content.len(),
{
    if content.len() > 0 {
        let earlier = content.drop_last();
        lemma_siblings_build_mapping(entries, earlier);
        lemma_absorb_last(Tree::Mapping(entries), content);
    }
}

/// Overwrite: among sibling elements the last one with a given tag name
/// wins. Whatever siblings came before it, with that name or another, the
/// mapping holds its value under the name.
pub proof fn lemma_last_sibling_wins(entries: Entries, content: Seq<Xml>, i: int)
    requires
        has_no_text(content),
        0 <= i < content.len(),
        content[i] is Element,
        forall|j: int|
            i < j < content.len() && (#[trigger] content[j]) is Element ==> name_of(content[j])
                != name_of(content[i]),
    ensures
        absorb_all(Tree::Mapping(entries), content) matches Tree::Mapping(after) && lookup(
            after,
            name_of(content[i]),
        ) == Some(value_of(content[i])),
    decreases content.len(),
{
    let earlier = content.drop_last();
    let last = content.last();
    lemma_siblings_build_mapping(entries, earlier);
    lemma_absorb_last(Tree::Mapping(entries), content);
    let before = absorb_all(Tree::Mapping(entries), earlier)->Mapping_0;
    if i == content.len() - 1 {
        lemma_lookup_after_put(before, name_of(last), value_of(last), name_of(last));
    } else {
        lemma_last_sibling_wins(entries, earlier, i);
        if last is Element {
            lemma_lookup_after_put(before, name_of(last), value_of(last), name_of(content[i]));
        }
    }
}

/// Text clobbers: after text that is not empty the value is that text,
/// whatever the content before it has built.
pub proof fn lemma_trailing_text_wins(cursor: Tree, content: Seq<Xml>, text: Seq<char>)
    requires
        text.len() > 0,
    ensures
        absorb_all(cursor, content.push(Xml::Text(text))) == Tree::Scalar(text),
{
    lemma_absorb_last(cursor, content.push(Xml::Text(text)));
}

/// A scalar holds no children: elements that follow text are dropped, and
/// only later text can change the value.
pub proof fn lemma_elements_after_text_are_dropped(text: Seq<char>, content: Seq<Xml>)
    requires
        has_no_text(content),
    ensures
        absorb_all(Tree::Scalar(text), content) == Tree::Scalar(text),
    decreases content.len(),
{
    if content.len() > 0 {
        let earlier = content.drop_last();
        lemma_elements_after_text_are_dropped(text, earlier);
        lemma_absorb_last(Tree::Scalar(text), content);
    }
}

/// Failure: a parse failure after any events that do not end the document
/// makes the conversion fail, whatever follows.
pub proof fn lemma_failure_fails(state: State, events: Seq<EventView>, rest: Seq<Reading>)
    requires
        forall|i: int| 0 <= i < events.len() ==> events[i] != EventView::EndOfDocument,
    ensures
        drive(
            state,
            events.map_values(|e: EventView| Reading::Event(e)) + (seq![Reading::Failure] + rest),
        ) is None,
{
    lemma_drive_events(state, events, seq![Reading::Failure] + rest);
}

/// Failure: a document that ends inside an element makes the conversion
/// fail.
pub proof fn lemma_unclosed_element_fails(before: Seq<Xml>, name: Seq<char>, inside: Seq<Xml>)
    ensures
        drive(
            initial(),
            (events_of_all(before) + seq![EventView::StartElement(name)] + events_of_all(
                inside,
            )).map_values(|e: EventView| Reading::Event(e)).push(
                Reading::Event(EventView::EndOfDocument),
            ),
        ) is None,
{
    let start = seq![EventView::StartElement(name)];
    let events = events_of_all(before) + start + events_of_all(inside);
    let last = seq![Reading::Event(EventView::EndOfDocument)];
    lemma_all_events_are_inner(before);
    lemma_all_events_are_inner(inside);
    lemma_drive_events(initial(), events, last);
    assert(events.map_values(|e: EventView| Reading::Event(e)).push(
        Reading::Event(EventView::EndOfDocument),
    ) =~= events.map_values(|e: EventView| Reading::Event(e)) + last);
    lemma_run_concat(initial(), events_of_all(before) + start, events_of_all(inside));
    lemma_run_concat(initial(), events_of_all(before), start);
    let closed = run(initial(), events_of_all(before));
    lemma_run_one(closed, EventView::StartElement(name));
    lemma_run_content(step(closed, EventView::StartElement(name)), inside);
}

} // verus!
