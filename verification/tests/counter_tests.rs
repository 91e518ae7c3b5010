use counter_app::Action;
use counter_app::Attr;
use counter_app::Element;
use counter_app::Model;
use counter_app::Msg;
use counter_app::Node;
use counter_app::counter_template;
use counter_app::elem_id_matches;
use counter_app::i32_to_string;
use counter_app::init;
use counter_app::update;
use counter_app::update_virtual_dom_node;
use counter_app::view;

fn attr(name: &str, value: &str) -> Attr {
    Attr { name: name.to_string(), value: value.to_string() }
}

fn el(tag: &str, attrs: Vec<Attr>, children: Vec<Node>) -> Node {
    Node::Element(Element { tag: tag.to_string(), attrs, children, on_click: None })
}

fn text(t: &str) -> Node {
    Node::Text(t.to_string())
}

/// The three-element template of the counter, as the framework's parser
/// would hand it over.
fn template_forest() -> Vec<Node> {
    vec![
        el("button", vec![attr("id", "decrement")], vec![text("-")]),
        el("span", vec![attr("id", "counter")], vec![text("0")]),
        el("button", vec![attr("id", "increment")], vec![text("+")]),
    ]
}

fn get_element(node: &Node) -> &Element {
    match node {
        Node::Element(el) => el,
        Node::Text(_) => panic!("expected an element"),
    }
}

fn text_content(node: &Node) -> &str {
    let el = get_element(node);
    assert_eq!(el.children.len(), 1);
    match &el.children[0] {
        Node::Text(t) => t,
        Node::Element(_) => panic!("expected a text child"),
    }
}

#[test]
fn starting_state_is_zero() {
    let m = init();
    assert_eq!(m.val, 0);
    assert_eq!(m.html, counter_template());
}

#[test]
fn template_has_expected_shape() {
    assert_eq!(
        counter_template(),
        "<button id=\"decrement\">-</button><span id=\"counter\">0</span><button id=\"increment\">+</button>"
    );
}

#[test]
fn increment_then_decrement_cancels() {
    let mut m = init();
    m.val = 7;
    update(Msg::Increment, &mut m);
    update(Msg::Decrement, &mut m);
    assert_eq!(m.val, 7);
    update(Msg::Decrement, &mut m);
    update(Msg::Increment, &mut m);
    assert_eq!(m.val, 7);
}

#[test]
fn increment_n_times_counts_up() {
    let mut m = init();
    for _ in 0..5 {
        update(Msg::Increment, &mut m);
    }
    assert_eq!(m.val, 5);
}

#[test]
fn decrement_n_times_goes_negative() {
    let mut m = init();
    for _ in 0..4 {
        update(Msg::Decrement, &mut m);
    }
    assert_eq!(m.val, -4);
}

#[test]
fn three_increments_reach_three() {
    let mut m = init();
    update(Msg::Increment, &mut m);
    update(Msg::Increment, &mut m);
    update(Msg::Increment, &mut m);
    assert_eq!(m.val, 3);
}

#[test]
fn unique_match_is_patched_once() {
    let forest = template_forest();
    let (patched, found) = update_virtual_dom_node(
        "counter",
        forest,
        &Action::ReplaceText("42".to_string()),
    );
    assert!(found);
    // Only the counter element changed; the two buttons are untouched.
    assert_eq!(patched[0], el("button", vec![attr("id", "decrement")], vec![text("-")]));
    assert_eq!(patched[1], el("span", vec![attr("id", "counter")], vec![text("42")]));
    assert_eq!(patched[2], el("button", vec![attr("id", "increment")], vec![text("+")]));
}

#[test]
fn missing_id_is_a_silent_no_op() {
    let forest = template_forest();
    let (patched, found) = update_virtual_dom_node(
        "reset",
        forest,
        &Action::SetOnClick(Msg::Decrement),
    );
    assert!(!found);
    assert_eq!(patched, template_forest());
}

#[test]
fn empty_forest_is_a_silent_no_op() {
    let (patched, found) = update_virtual_dom_node(
        "counter",
        Vec::new(),
        &Action::SetOnClick(Msg::Increment),
    );
    assert!(!found);
    assert!(patched.is_empty());
}

#[test]
fn search_descends_into_children() {
    let forest = vec![el(
        "div",
        vec![attr("class", "wrapper")],
        vec![
            text("label"),
            el(
                "section",
                vec![],
                vec![el("span", vec![attr("id", "counter")], vec![text("0")])],
            ),
        ],
    )];
    let (patched, found) = update_virtual_dom_node(
        "counter",
        forest,
        &Action::ReplaceText("9".to_string()),
    );
    assert!(found);
    let outer = get_element(&patched[0]);
    let section = get_element(&outer.children[1]);
    assert_eq!(text_content(&section.children[0]), "9");
}

#[test]
fn only_first_match_in_document_order_is_patched() {
    let forest = vec![
        el(
            "div",
            vec![],
            vec![el("span", vec![attr("id", "counter")], vec![text("first")])],
        ),
        el("span", vec![attr("id", "counter")], vec![text("second")]),
    ];
    let (patched, found) = update_virtual_dom_node(
        "counter",
        forest,
        &Action::ReplaceText("X".to_string()),
    );
    assert!(found);
    let outer = get_element(&patched[0]);
    assert_eq!(text_content(&outer.children[0]), "X");
    // The later match keeps its old content.
    assert_eq!(text_content(&patched[1]), "second");
}

#[test]
fn set_on_click_keeps_children() {
    let forest = template_forest();
    let (patched, found) = update_virtual_dom_node(
        "increment",
        forest,
        &Action::SetOnClick(Msg::Increment),
    );
    assert!(found);
    let button = get_element(&patched[2]);
    assert_eq!(button.on_click, Some(Msg::Increment));
    assert_eq!(text_content(&patched[2]), "+");
}

#[test]
fn id_attribute_is_matched_by_exact_key() {
    let button = Element {
        tag: "button".to_string(),
        attrs: vec![attr("class", "counter"), attr("id", "counter")],
        children: vec![],
        on_click: None,
    };
    assert!(elem_id_matches(&button, &"counter".to_string()));
    assert!(!elem_id_matches(&button, &"reset".to_string()));
    let unnamed = Element {
        tag: "span".to_string(),
        attrs: vec![attr("class", "counter")],
        children: vec![],
        on_click: None,
    };
    assert!(!elem_id_matches(&unnamed, &"counter".to_string()));
}

#[test]
fn view_renders_state_five() {
    let mut m = init();
    m.val = 5;
    let rendered = view(&m, template_forest());
    assert_eq!(rendered.len(), 3);
    let decrement = get_element(&rendered[0]);
    assert_eq!(decrement.on_click, Some(Msg::Decrement));
    assert_eq!(text_content(&rendered[0]), "-");
    assert_eq!(text_content(&rendered[1]), "5");
    let increment = get_element(&rendered[2]);
    assert_eq!(increment.on_click, Some(Msg::Increment));
    assert_eq!(text_content(&rendered[2]), "+");
}

#[test]
fn view_after_three_increments_shows_three() {
    let mut m = init();
    update(Msg::Increment, &mut m);
    update(Msg::Increment, &mut m);
    update(Msg::Increment, &mut m);
    let rendered = view(&m, template_forest());
    assert_eq!(text_content(&rendered[1]), "3");
}

#[test]
fn replace_text_keeps_element_children() {
    let forest = vec![el(
        "div",
        vec![attr("id", "counter")],
        vec![
            text("old"),
            el("b", vec![], vec![text("bold")]),
            text("older"),
        ],
    )];
    let (patched, found) = update_virtual_dom_node(
        "counter",
        forest,
        &Action::ReplaceText("new".to_string()),
    );
    assert!(found);
    let div = get_element(&patched[0]);
    // Text children go; element children stay; the new text comes last.
    assert_eq!(div.children.len(), 2);
    assert_eq!(div.children[0], el("b", vec![], vec![text("bold")]));
    assert_eq!(div.children[1], text("new"));
}

#[test]
fn decimal_rendering_is_exact() {
    assert_eq!(i32_to_string(0), "0");
    assert_eq!(i32_to_string(5), "5");
    assert_eq!(i32_to_string(-7), "-7");
    assert_eq!(i32_to_string(123), "123");
    assert_eq!(i32_to_string(-120), "-120");
    assert_eq!(i32_to_string(1000), "1000");
    assert_eq!(i32_to_string(i32::MAX), "2147483647");
    assert_eq!(i32_to_string(i32::MIN), "-2147483648");
}
