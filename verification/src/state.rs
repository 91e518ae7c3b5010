//! The counter's state and its two messages.
//!
//! `Model` holds the counter value together with the static template the
//! view is rendered from, `Msg` is the closed two-variant message alphabet,
//! and `update` is the pure transition that interprets one message.

use vstd::prelude::*;

verus! {

/// A request to change the counter: the only two events the UI produces.
#[derive(Debug, Clone, Copy, PartialEq, Eq, Structural)]
pub enum Msg {
    Increment,
    Decrement,
}

/// The application state: the counter value and the HTML-like template
/// the view is built from.
pub struct Model {
    pub val: i32,
    pub html: &'static str,
}

/// What one message does to the counter, as a mathematical function.
pub open spec fn spec_update(msg: Msg, val: int) -> int {
    match msg {
        Msg::Increment => val + 1,
        Msg::Decrement => val - 1,
    }
}

/// The counter after a whole sequence of messages, applied left to right.
pub open spec fn apply_msgs(msgs: Seq<Msg>, val: int) -> int
    decreases msgs.len(),
{
    if msgs.len() == 0 {
        val
    } else {
        apply_msgs(msgs.skip(1), spec_update(msgs[0], val))
    }
}

/// The template the counter is rendered from: a decrement button, the
/// counter display, and an increment button, located by their `id`s.
pub open spec fn template_text() -> Seq<char> {
    "<button id=\"decrement\">-</button><span id=\"counter\">0</span><button id=\"increment\">+</button>"@
}

/// The static template as a string slice.
pub fn counter_template() -> (s: &'static str)
    ensures
        s@ == template_text(),
{
    "<button id=\"decrement\">-</button><span id=\"counter\">0</span><button id=\"increment\">+</button>"
}

/// The starting state: counter at zero, template in place.
pub fn init() -> (m: Model)
    ensures
        m.val == 0,
        m.html@ == template_text(),
{
    Model { val: 0, html: counter_template() }
}

/// Interpret one message: Increment adds one, Decrement subtracts one.
/// The template is left untouched.
pub fn update(msg: Msg, model: &mut Model)
    requires
        msg == Msg::Increment ==> old(model).val < i32::MAX,
        msg == Msg::Decrement ==> old(model).val > i32::MIN,
    ensures
        final(model).val == spec_update(msg, old(model).val as int),
        final(model).html == old(model).html,
{
    match msg {
        Msg::Increment => model.val = model.val + 1,
        Msg::Decrement => model.val = model.val - 1,
    }
}

/// Increment and Decrement cancel: applied one after the other, in either
/// order, they return the counter to its original value.
pub proof fn lemma_increment_decrement_cancel(val: int)
    ensures
        spec_update(Msg::Decrement, spec_update(Msg::Increment, val)) == val,
        spec_update(Msg::Increment, spec_update(Msg::Decrement, val)) == val,
{
}

/// Messages commute: the counter after two messages does not depend on
/// their order.
pub proof fn lemma_messages_commute(m1: Msg, m2: Msg, val: int)
    ensures
        spec_update(m2, spec_update(m1, val)) == spec_update(m1, spec_update(m2, val)),
{
}

/// Applying Increment `n` times adds `n` to the counter.
pub proof fn lemma_increment_n_times(n: nat, val: int)
    ensures
        apply_msgs(Seq::new(n, |i: int| Msg::Increment), val) == val + n,
    decreases n,
{
    let msgs = Seq::new(n, |i: int| Msg::Increment);
    if n > 0 {
        assert(msgs.skip(1) =~= Seq::new((n - 1) as nat, |i: int| Msg::Increment));
        lemma_increment_n_times((n - 1) as nat, val + 1);
    }
}

/// Applying Decrement `n` times subtracts `n` from the counter: from zero
/// it reaches exactly `-n`, with no clamping.
pub proof fn lemma_decrement_n_times(n: nat, val: int)
    ensures
        apply_msgs(Seq::new(n, |i: int| Msg::Decrement), val) == val - n,
    decreases n,
{
    let msgs = Seq::new(n, |i: int| Msg::Decrement);
    if n > 0 {
        assert(msgs.skip(1) =~= Seq::new((n - 1) as nat, |i: int| Msg::Decrement));
        lemma_decrement_n_times((n - 1) as nat, val - 1);
    }
}

} // verus!
