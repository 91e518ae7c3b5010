//! The virtual node tree and the id-directed patch.
//!
//! A `Node` is either a text node or an element carrying a tag, an ordered
//! attribute list, child nodes and an optional click message. The one
//! algorithm of the library walks a forest of such nodes in depth-first
//! pre-order, looks for the first element whose `id` attribute equals a
//! requested identifier, and applies a single mutation to it; a missing
//! identifier is a silent no-op.

use vstd::prelude::*;
use vstd::string::StringExecFns;

use crate::state::Msg;

verus! {

/// One attribute: a name and a value, queried by exact key match.
#[derive(Debug, PartialEq, Eq)]
pub struct Attr {
    pub name: String,
    pub value: String,
}

/// An element node: tag, ordered attributes, children, and the message a
/// click on it produces, if any.
#[derive(Debug, PartialEq, Eq)]
pub struct Element {
    pub tag: String,
    pub attrs: Vec<Attr>,
    pub children: Vec<Node>,
    pub on_click: Option<Msg>,
}

/// A node of the UI tree: an element or plain text.
#[derive(Debug, PartialEq, Eq)]
pub enum Node {
    Element(Element),
    Text(String),
}

/// The mathematical image of an attribute.
#[verifier::ext_equal]
pub ghost struct AttrView {
    pub name: Seq<char>,
    pub value: Seq<char>,
}

/// The mathematical image of an element.
#[verifier::ext_equal]
pub ghost struct ElementView {
    pub tag: Seq<char>,
    pub attrs: Seq<AttrView>,
    pub children: Seq<NodeView>,
    pub on_click: Option<Msg>,
}

/// The mathematical image of a node.
#[verifier::ext_equal]
pub ghost enum NodeView {
    Element(ElementView),
    Text(Seq<char>),
}

/// What an attribute is as a value.
pub open spec fn attr_view(a: Attr) -> AttrView {
    AttrView { name: a.name@, value: a.value@ }
}

/// What a whole forest is as a value.
pub open spec fn forest_view(nodes: Seq<Node>) -> Seq<NodeView>
    decreases nodes,
{
    if nodes.len() == 0 {
        Seq::empty()
    } else {
        seq![node_view(nodes[0])] + forest_view(nodes.skip(1))
    }
}

/// What an element is as a value.
pub open spec fn element_view(el: Element) -> ElementView
    decreases el,
{
    ElementView {
        tag: el.tag@,
        attrs: el.attrs@.map_values(|a: Attr| attr_view(a)),
        children: forest_view(el.children@),
        on_click: el.on_click,
    }
}

/// What a node is as a value.
pub open spec fn node_view(node: Node) -> NodeView
    decreases node,
{
    match node {
        Node::Text(t) => NodeView::Text(t@),
        Node::Element(el) => NodeView::Element(element_view(el)),
    }
}

/// The mutation the patch applies to the matched element: attach a click
/// message, or replace the element's text content.
#[derive(Debug, PartialEq, Eq)]
pub enum Action {
    SetOnClick(Msg),
    ReplaceText(String),
}

/// The mathematical image of an action.
#[verifier::ext_equal]
pub ghost enum ActionView {
    SetOnClick(Msg),
    ReplaceText(Seq<char>),
}

/// What an action is as a value.
pub open spec fn action_view(a: Action) -> ActionView {
    match a {
        Action::SetOnClick(m) => ActionView::SetOnClick(m),
        Action::ReplaceText(t) => ActionView::ReplaceText(t@),
    }
}

/// The value of the first attribute with the given name, if any.
pub open spec fn attr_lookup(attrs: Seq<AttrView>, name: Seq<char>) -> Option<Seq<char>>
    decreases attrs.len(),
{
    if attrs.len() == 0 {
        None
    } else if attrs[0].name == name {
        Some(attrs[0].value)
    } else {
        attr_lookup(attrs.skip(1), name)
    }
}

/// Whether an element carries an `id` attribute whose value is `id`.
pub open spec fn has_id(el: ElementView, id: Seq<char>) -> bool {
    attr_lookup(el.attrs, "id"@) == Some(id)
}

/// A forest with its text nodes removed, the element nodes kept in
/// order.
pub open spec fn drop_text_nodes(s: Seq<NodeView>) -> Seq<NodeView>
    decreases s.len(),
{
    if s.len() == 0 {
        Seq::empty()
    } else if s[0] is Text {
        drop_text_nodes(s.skip(1))
    } else {
        seq![s[0]] + drop_text_nodes(s.skip(1))
    }
}

/// The element after the action: either the click message is set, or the
/// element's text content is replaced: its text children go, and the new
/// text comes last.
pub open spec fn apply_action(el: ElementView, a: ActionView) -> ElementView {
    match a {
        ActionView::SetOnClick(m) => ElementView { on_click: Some(m), ..el },
        ActionView::ReplaceText(t) => ElementView {
            children: drop_text_nodes(el.children).push(NodeView::Text(t)),
            ..el
        },
    }
}

/// How many elements of the forest carry the identifier, over the whole
/// depth of every tree.
pub open spec fn count_matches(nodes: Seq<NodeView>, id: Seq<char>) -> nat
    decreases nodes,
{
    if nodes.len() == 0 {
        0
    } else {
        (match nodes[0] {
            NodeView::Text(_) => 0nat,
            NodeView::Element(el) => (if has_id(el, id) {
                1nat
            } else {
                0nat
            }) + count_matches(el.children, id),
        }) + count_matches(nodes.skip(1), id)
    }
}

/// The patched forest, together with the number of elements the action was
/// applied to. The walk is depth-first pre-order; the first element whose
/// `id` attribute equals `id` receives the action and the walk stops, so
/// the count is never more than one. A forest without a match comes back
/// unchanged with count zero.
pub open spec fn patch_forest(nodes: Seq<NodeView>, id: Seq<char>, a: ActionView) -> (Seq<
    NodeView,
>, nat)
    decreases nodes,
{
    if nodes.len() == 0 {
        (nodes, 0)
    } else {
        match nodes[0] {
            NodeView::Text(t) => {
                let (rest, n) = patch_forest(nodes.skip(1), id, a);
                (seq![nodes[0]] + rest, n)
            },
            NodeView::Element(el) => {
                if has_id(el, id) {
                    (seq![NodeView::Element(apply_action(el, a))] + nodes.skip(1), 1)
                } else {
                    let (children, n) = patch_forest(el.children, id, a);
                    if n > 0 {
                        (
                            seq![NodeView::Element(ElementView { children, ..el })]
                                + nodes.skip(1),
                            n,
                        )
                    } else {
                        let (rest, m) = patch_forest(nodes.skip(1), id, a);
                        (seq![nodes[0]] + rest, m)
                    }
                }
            },
        }
    }
}

/// Whether the element's `id` attribute (the first one so named, queried
/// by exact key match) equals the requested identifier.
pub fn elem_id_matches(el: &Element, id: &String) -> (r: bool)
    ensures
        r == has_id(element_view(*el), id@),
{
    let key = String::from_str("id");
    let ghost av = element_view(*el).attrs;
    proof {
        assert(av.skip(0) =~= av);
    }
    let mut i: usize = 0;
    while i < el.attrs.len()
        invariant
            i <= el.attrs.len(),
            key@ == "id"@,
            av == element_view(*el).attrs,
            attr_lookup(av, "id"@) == attr_lookup(av.skip(i as int), "id"@),
        decreases el.attrs.len() - i,
    {
        proof {
            assert(av.skip(i as int)[0] == attr_view(el.attrs@[i as int]));
        }
        if el.attrs[i].name == key {
            return el.attrs[i].value == *id;
        }
        proof {
            assert(av.skip(i as int).skip(1) =~= av.skip(i as int + 1));
        }
        i = i + 1;
    }
    proof {
        assert(av.skip(i as int) =~= Seq::<AttrView>::empty());
    }
    false
}

/// The action, applied to one element.
fn apply_node_action(el: Element, action: &Action) -> (res: Element)
    ensures
        element_view(res) == apply_action(element_view(el), action_view(*action)),
{
    match action {
        Action::SetOnClick(m) => {
            let res = Element {
                tag: el.tag,
                attrs: el.attrs,
                children: el.children,
                on_click: Some(*m),
            };
            proof {
                assert(element_view(res) =~= apply_action(element_view(el), action_view(*action)));
            }
            res
        },
        Action::ReplaceText(t) => {
            let ghost el0 = el;
            let Element { tag, attrs, children, on_click } = el;
            let mut rest = children;
            let mut kept: Vec<Node> = Vec::new();
            proof {
                assert(forest_view(kept@) =~= Seq::<NodeView>::empty());
            }
            while rest.len() > 0
                invariant
                    drop_text_nodes(forest_view(el0.children@)) == forest_view(kept@)
                        + drop_text_nodes(forest_view(rest@)),
                decreases rest@.len(),
            {
                let ghost rest0 = rest@;
                let ghost fv = forest_view(rest0);
                let c = rest.remove(0);
                proof {
                    assert(rest@ =~= rest0.skip(1));
                    assert(fv[0] == node_view(rest0[0]));
                    assert(fv.skip(1) =~= forest_view(rest0.skip(1)));
                }
                match c {
                    Node::Text(_) => {
                        proof {
                            assert(drop_text_nodes(fv) == drop_text_nodes(forest_view(rest@)));
                        }
                    },
                    Node::Element(_) => {
                        proof {
                            lemma_forest_view_push(kept@, c);
                            assert(forest_view(kept@.push(c)) + drop_text_nodes(
                                forest_view(rest@),
                            ) =~= forest_view(kept@) + drop_text_nodes(fv));
                        }
                        kept.push(c);
                    },
                }
            }
            proof {
                assert(forest_view(rest@) =~= Seq::<NodeView>::empty());
                assert(drop_text_nodes(forest_view(el0.children@)) =~= forest_view(kept@));
            }
            let new_text = Node::Text(t.clone());
            proof {
                lemma_forest_view_push(kept@, new_text);
            }
            kept.push(new_text);
            let res = Element { tag, attrs, children: kept, on_click };
            proof {
                assert(element_view(res) =~= apply_action(element_view(el0), action_view(*action)));
            }
            res
        },
    }
}

/// Appending a node to a forest appends its image to the forest's image.
proof fn lemma_forest_view_push(s: Seq<Node>, n: Node)
    ensures
        forest_view(s.push(n)) == forest_view(s) + seq![node_view(n)],
    decreases s.len(),
{
    if s.len() == 0 {
        assert(s.push(n).skip(1) =~= Seq::<Node>::empty());
        assert(forest_view(s.push(n)) =~= forest_view(s) + seq![node_view(n)]);
    } else {
        lemma_forest_view_push(s.skip(1), n);
        assert(s.push(n).skip(1) =~= s.skip(1).push(n));
        assert(s.push(n)[0] == s[0]);
        assert(forest_view(s.push(n)) == seq![node_view(s.push(n)[0])] + forest_view(
            s.push(n).skip(1),
        ));
        assert(forest_view(s.push(n)) =~= forest_view(s) + seq![node_view(n)]);
    }
}

/// A patch that applied the action nowhere hands the forest back exactly
/// as it was.
pub proof fn lemma_patch_not_found_unchanged(nodes: Seq<NodeView>, id: Seq<char>, a: ActionView)
    ensures
        patch_forest(nodes, id, a).1 == 0 ==> patch_forest(nodes, id, a).0 == nodes,
    decreases nodes,
{
    if nodes.len() == 0 {
    } else {
        lemma_patch_not_found_unchanged(nodes.skip(1), id, a);
        match nodes[0] {
            NodeView::Text(_) => {
                if patch_forest(nodes, id, a).1 == 0 {
                    assert(seq![nodes[0]] + patch_forest(nodes.skip(1), id, a).0 =~= nodes);
                }
            },
            NodeView::Element(el) => {
                if !has_id(el, id) {
                    lemma_patch_not_found_unchanged(el.children, id, a);
                    if patch_forest(nodes, id, a).1 == 0 {
                        assert(seq![nodes[0]] + patch_forest(nodes.skip(1), id, a).0 =~= nodes);
                    }
                }
            },
        }
    }
}

/// The action is never applied more than once: the walk stops at the
/// first matching element, whatever the forest holds.
pub proof fn lemma_patch_applies_at_most_once(nodes: Seq<NodeView>, id: Seq<char>, a: ActionView)
    ensures
        patch_forest(nodes, id, a).1 <= 1,
    decreases nodes,
{
    if nodes.len() == 0 {
    } else {
        lemma_patch_applies_at_most_once(nodes.skip(1), id, a);
        match nodes[0] {
            NodeView::Text(_) => {},
            NodeView::Element(el) => {
                lemma_patch_applies_at_most_once(el.children, id, a);
            },
        }
    }
}

/// The action is applied somewhere exactly when some element of the
/// forest carries the identifier.
pub proof fn lemma_patch_applied_iff_match(nodes: Seq<NodeView>, id: Seq<char>, a: ActionView)
    ensures
        patch_forest(nodes, id, a).1 > 0 <==> count_matches(nodes, id) > 0,
    decreases nodes,
{
    if nodes.len() == 0 {
    } else {
        lemma_patch_applied_iff_match(nodes.skip(1), id, a);
        match nodes[0] {
            NodeView::Text(_) => {},
            NodeView::Element(el) => {
                lemma_patch_applied_iff_match(el.children, id, a);
            },
        }
    }
}

/// A forest with exactly one element carrying the identifier has the
/// action applied exactly once, and to no other node.
pub proof fn lemma_unique_match_applied_once(nodes: Seq<NodeView>, id: Seq<char>, a: ActionView)
    requires
        count_matches(nodes, id) == 1,
    ensures
        patch_forest(nodes, id, a).1 == 1,
{
    lemma_patch_applies_at_most_once(nodes, id, a);
    lemma_patch_applied_iff_match(nodes, id, a);
}

/// A forest with no element carrying the identifier is handed back
/// structurally unchanged, and the action is applied to nothing.
pub proof fn lemma_no_match_no_op(nodes: Seq<NodeView>, id: Seq<char>, a: ActionView)
    requires
        count_matches(nodes, id) == 0,
    ensures
        patch_forest(nodes, id, a) == (nodes, 0nat),
{
    lemma_patch_applied_iff_match(nodes, id, a);
    lemma_patch_not_found_unchanged(nodes, id, a);
}

/// Prepending a node to a forest prepends its image to the forest's image.
proof fn lemma_forest_view_insert0(s: Seq<Node>, n: Node)
    ensures
        forest_view(s.insert(0, n)) == seq![node_view(n)] + forest_view(s),
{
    let s2 = s.insert(0, n);
    assert(s2.len() > 0);
    assert(s2[0] == n);
    assert(s2.skip(1) =~= s);
}

/// Depth-first pre-order search for the first element whose `id`
/// attribute equals `id`; that element alone receives the action. The
/// result pairs the patched forest with whether a match was found; with
/// no match the forest comes back unchanged.
pub fn update_virtual_dom_node(id: &str, nodes: Vec<Node>, action: &Action) -> (res: (
    Vec<Node>,
    bool,
))
    ensures
        forest_view(res.0@) == patch_forest(forest_view(nodes@), id@, action_view(*action)).0,
        res.1 == (patch_forest(forest_view(nodes@), id@, action_view(*action)).1 > 0),
        res.1 == (count_matches(forest_view(nodes@), id@) > 0),
{
    let ghost nodes0 = nodes@;
    let id_string = String::from_str(id);
    let res = patch_forest_exec(&id_string, nodes, action);
    proof {
        lemma_patch_applied_iff_match(forest_view(nodes0), id@, action_view(*action));
    }
    res
}

/// The recursive worker behind `update_virtual_dom_node`.
fn patch_forest_exec(id: &String, nodes: Vec<Node>, action: &Action) -> (res: (Vec<Node>, bool))
    ensures
        forest_view(res.0@) == patch_forest(forest_view(nodes@), id@, action_view(*action)).0,
        res.1 == (patch_forest(forest_view(nodes@), id@, action_view(*action)).1 > 0),
    decreases nodes@,
{
    let mut nodes = nodes;
    if nodes.len() == 0 {
        return (nodes, false);
    }
    let ghost nodes0 = nodes@;
    let ghost fv = forest_view(nodes0);
    let head = nodes.remove(0);
    proof {
        assert(nodes@ =~= nodes0.skip(1));
        assert(fv[0] == node_view(nodes0[0]));
        assert(fv.skip(1) =~= forest_view(nodes0.skip(1)));
        assert(decreases_to!(nodes0 => nodes0.subrange(1, nodes0.len() as int)));
    }
    match head {
        Node::Text(t) => {
            let (mut rest, f) = patch_forest_exec(id, nodes, action);
            proof {
                lemma_forest_view_insert0(rest@, Node::Text(t));
            }
            rest.insert(0, Node::Text(t));
            proof {
                assert(forest_view(rest@) =~= patch_forest(fv, id@, action_view(*action)).0);
            }
            (rest, f)
        },
        Node::Element(el) => {
            if elem_id_matches(&el, id) {
                let el2 = apply_node_action(el, action);
                proof {
                    lemma_forest_view_insert0(nodes@, Node::Element(el2));
                }
                nodes.insert(0, Node::Element(el2));
                proof {
                    assert(forest_view(nodes@) =~= patch_forest(fv, id@, action_view(*action)).0);
                }
                (nodes, true)
            } else {
                let ghost el0 = el;
                let Element { tag, attrs, children, on_click } = el;
                proof {
                    assert(nodes0[0] == Node::Element(el0));
                    assert(decreases_to!(nodes0 => nodes0[0]));
                    assert(decreases_to!(nodes0[0] => el0));
                    assert(decreases_to!(el0 => el0.children));
                    assert(decreases_to!(el0.children => el0.children@));
                }
                let (children2, f) = patch_forest_exec(id, children, action);
                let el2 = Element { tag, attrs, children: children2, on_click };
                proof {
                    assert(element_view(el2) =~= ElementView {
                        children: forest_view(children2@),
                        ..element_view(el0)
                    });
                }
                if f {
                    proof {
                        lemma_forest_view_insert0(nodes@, Node::Element(el2));
                    }
                    nodes.insert(0, Node::Element(el2));
                    proof {
                        assert(forest_view(nodes@) =~= patch_forest(
                            fv,
                            id@,
                            action_view(*action),
                        ).0);
                    }
                    (nodes, true)
                } else {
                    let (mut rest, f2) = patch_forest_exec(id, nodes, action);
                    proof {
                        lemma_forest_view_insert0(rest@, Node::Element(el2));
                    }
                    rest.insert(0, Node::Element(el2));
                    proof {
                        lemma_patch_not_found_unchanged(
                            forest_view(el0.children@),
                            id@,
                            action_view(*action),
                        );
                        assert(element_view(el2) =~= element_view(el0));
                        assert(forest_view(rest@) =~= patch_forest(
                            fv,
                            id@,
                            action_view(*action),
                        ).0);
                    }
                    (rest, f2)
                }
            }
        },
    }
}

} // verus!
