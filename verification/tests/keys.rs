use jaringan::keys::{key_matches_binding, parse_binding, parse_color, Color, KeyCode, KeyEvent, KeyModifiers};

#[test]
fn test_parse_named_colors() {
    assert_eq!(parse_color("cyan"), Color::Cyan);
    assert_eq!(parse_color("CYAN"), Color::Cyan);
    assert_eq!(parse_color("dark_gray"), Color::DarkGray);
    assert_eq!(parse_color("light_red"), Color::LightRed);
}

#[test]
fn test_parse_hex_colors() {
    assert_eq!(parse_color("#ff0000"), Color::Rgb(255, 0, 0));
    assert_eq!(parse_color("#00ff00"), Color::Rgb(0, 255, 0));
    assert_eq!(parse_color("#0000ff"), Color::Rgb(0, 0, 255));
}

#[test]
fn test_parse_invalid_fallback() {
    assert_eq!(parse_color("not-a-color"), Color::Cyan);
    assert_eq!(parse_color(""), Color::Cyan);
}

#[test]
fn test_parse_binding_simple_char() {
    let (code, mods, label) = parse_binding("q");
    assert_eq!(code, KeyCode::Char('q'));
    assert_eq!(mods, KeyModifiers::empty());
    assert_eq!(label, "q");
}

#[test]
fn test_parse_binding_ctrl_shift_r() {
    let (code, mods, label) = parse_binding("Ctrl+Shift+R");
    assert_eq!(code, KeyCode::Char('R'));
    assert!(mods.contains(KeyModifiers::control()));
    assert!(mods.contains(KeyModifiers::shift()));
    assert_eq!(label, "Ctrl+Shift+R");
}

#[test]
fn test_parse_binding_alt_number() {
    let (code, mods, _label) = parse_binding("Alt+1");
    assert_eq!(code, KeyCode::Char('1'));
    assert!(mods.contains(KeyModifiers::alt()));
}

#[test]
fn test_parse_binding_special_keys() {
    assert_eq!(parse_binding("Esc").0, KeyCode::Esc);
    assert_eq!(parse_binding("Enter").0, KeyCode::Enter);
    assert_eq!(parse_binding("Tab").0, KeyCode::Tab);
    assert_eq!(parse_binding("BackTab").0, KeyCode::BackTab);
    assert_eq!(parse_binding("PageDown").0, KeyCode::PageDown);
    assert_eq!(parse_binding("F5").0, KeyCode::F(5));
}

#[test]
fn test_parse_binding_space() {
    assert_eq!(parse_binding("Space").0, KeyCode::Char(' '));
    assert_eq!(parse_binding(" ").0, KeyCode::Char(' '));
}

#[test]
fn test_key_matches_binding() {
    let event = KeyEvent::new(KeyCode::Char('R'), KeyModifiers::control().union(KeyModifiers::shift()));
    assert!(key_matches_binding(&event, "Ctrl+Shift+R"));
}

#[test]
fn bindings_and_colours_edge_cases() {
    let (code, mods, label) = parse_binding("cmd+option+F12");
    assert_eq!(code, KeyCode::F(12));
    assert_eq!(mods, KeyModifiers::super_key().union(KeyModifiers::alt()));
    assert_eq!(label, "Super+Alt+F12");
    assert_eq!(parse_binding("Ctrl+xy").0, KeyCode::Char('?'));
    assert!(!key_matches_binding(&KeyEvent::new(KeyCode::Char('R'), KeyModifiers::control()), "Ctrl+Shift+R"));
    assert_eq!(parse_color(" #1A2b3C "), Color::Rgb(0x1a, 0x2b, 0x3c));
    assert_eq!(parse_color("#zz00+f"), Color::Cyan);
    assert_eq!(parse_color("#0a00+f"), Color::Rgb(10, 0, 15));
    assert_eq!(parse_color("Grey"), Color::Gray);
}

#[test]
fn hex_colours_that_do_not_parse_are_cyan() {
    assert_eq!(parse_color("#zzzzzz"), Color::Cyan);
    assert_eq!(parse_color("#12zz56"), Color::Cyan);
    assert_eq!(parse_color("#1é234"), Color::Cyan);
    assert_eq!(parse_color(" #0A0b0C "), Color::Rgb(10, 11, 12));
}
