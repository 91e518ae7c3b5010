mod decimal;
mod render;
mod state;
mod vdom;

pub use decimal::i32_to_string;
pub use render::view;
pub use state::Model;
pub use state::Msg;
pub use state::counter_template;
pub use state::init;
pub use state::update;
pub use vdom::Action;
pub use vdom::Attr;
pub use vdom::Element;
pub use vdom::Node;
pub use vdom::elem_id_matches;
pub use vdom::update_virtual_dom_node;
