//! The view: from state to the node forest handed to the renderer.
//!
//! The template is an HTML-like fragment; turning that string into a
//! node forest is the host framework's job and stays outside the
//! library. `view` takes the already-parsed forest and the current state,
//! wires the two buttons to their messages, and writes the counter's
//! decimal string into the display element, each located by its `id`.

use vstd::prelude::*;

use crate::decimal::dec_string;
use crate::decimal::i32_to_string;
use crate::state::Model;
use crate::state::Msg;
use crate::vdom::Action;
use crate::vdom::ActionView;
use crate::vdom::Node;
use crate::vdom::NodeView;
use crate::vdom::forest_view;
use crate::vdom::patch_forest;
use crate::vdom::update_virtual_dom_node;

verus! {

/// What the view does to the template forest: the `decrement` and
/// `increment` elements get their click messages, and the `counter`
/// element's content becomes the decimal string of the counter.
pub open spec fn spec_view(nodes: Seq<NodeView>, val: int) -> Seq<NodeView> {
    let wired_decrement = patch_forest(
        nodes,
        "decrement"@,
        ActionView::SetOnClick(Msg::Decrement),
    ).0;
    let wired_increment = patch_forest(
        wired_decrement,
        "increment"@,
        ActionView::SetOnClick(Msg::Increment),
    ).0;
    patch_forest(wired_increment, "counter"@, ActionView::ReplaceText(dec_string(val))).0
}

/// Build the view: patch the parsed template forest for the current
/// state. An identifier missing from the template is a silent no-op, as
/// the patch's contract says.
pub fn view(model: &Model, template: Vec<Node>) -> (res: Vec<Node>)
    ensures
        forest_view(res@) == spec_view(forest_view(template@), model.val as int),
{
    let decrement_action = Action::SetOnClick(Msg::Decrement);
    let (nodes, _) = update_virtual_dom_node("decrement", template, &decrement_action);
    let increment_action = Action::SetOnClick(Msg::Increment);
    let (nodes, _) = update_virtual_dom_node("increment", nodes, &increment_action);
    let counter_action = Action::ReplaceText(i32_to_string(model.val));
    let (nodes, _) = update_virtual_dom_node("counter", nodes, &counter_action);
    nodes
}

} // verus!
