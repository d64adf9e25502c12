use jaringan::page_actions::{click_payload, fill_inputs, find_button};
use jaringan::{ActionMethod, Block, Button, Input};

fn input(name: &str, value: &str) -> Block {
    Block::Input(Input { name: name.into(), label: name.to_uppercase(), value: value.into(), placeholder: None })
}

fn button(id: &str, label: &str) -> Block {
    Block::Button(Button {
        id: id.into(),
        label: label.into(),
        target: "/actions/go".into(),
        method: ActionMethod::Post,
        confirm: None,
        auth: None,
    })
}

#[test]
fn fields_fill_the_inputs_they_name_last_one_wins() {
    let blocks = vec![input("q", ""), Block::Paragraph("p".into()), input("n", "1")];
    let fields = vec!["q=first".to_string(), "bad".to_string(), "q=second=2".to_string(), "x=9".to_string()];
    let filled = fill_inputs(&blocks, &fields);
    assert_eq!(filled, vec![input("q", "second=2"), Block::Paragraph("p".into()), input("n", "1")]);
}

#[test]
fn buttons_are_found_by_id_or_label() {
    let blocks = vec![button("save", "Save page"), button("send", "Send")];
    assert_eq!(find_button(&blocks, "send").map(|b| b.id.as_str()), Some("send"));
    assert_eq!(find_button(&blocks, "Save page").map(|b| b.id.as_str()), Some("save"));
    assert!(find_button(&blocks, "nope").is_none());
}

#[test]
fn click_bodies_carry_inputs_and_the_button() {
    let blocks = vec![input("q", "laksa mee"), button("go now", "Go")];
    assert_eq!(click_payload(&blocks, "go now"), "q=laksa%20mee&button=go%20now");
    assert_eq!(click_payload(&[button("b", "B")], "b"), "button=b");
}
