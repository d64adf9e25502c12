use jaringan::browser::ActionConfirmation;
use jaringan::config::Config;
use jaringan::navigation::{BrowserState, PageLocation};
use jaringan::tabs::{
    apply_tab_command, confirm_action, goto_history_back, goto_history_forward, open_tab,
    TabCommand,
};

#[test]
fn tab_commands_move_between_and_rearrange_tabs() {
    let mut tabs = vec!["a", "b", "c"];
    let mut active = 0;
    assert!(apply_tab_command(&mut tabs, &mut active, TabCommand::Previous));
    assert_eq!(active, 2);
    assert!(apply_tab_command(&mut tabs, &mut active, TabCommand::Next));
    assert_eq!(active, 0);
    assert!(!apply_tab_command(&mut tabs, &mut active, TabCommand::MoveLeft));
    assert!(apply_tab_command(&mut tabs, &mut active, TabCommand::MoveRight));
    assert_eq!(tabs, vec!["b", "a", "c"]);
    assert_eq!(active, 1);
    assert!(apply_tab_command(&mut tabs, &mut active, TabCommand::MoveLeft));
    assert_eq!(tabs, vec!["a", "b", "c"]);
    assert_eq!(active, 0);
    assert!(apply_tab_command(&mut tabs, &mut active, TabCommand::Jump(2)));
    assert_eq!(active, 2);
    assert!(apply_tab_command(&mut tabs, &mut active, TabCommand::Jump(7)));
    assert_eq!(active, 2);
    assert!(apply_tab_command(&mut tabs, &mut active, TabCommand::Close));
    assert_eq!(tabs, vec!["a", "b"]);
    assert_eq!(active, 1);
    open_tab(&mut tabs, &mut active, "d");
    assert_eq!(active, 2);
    let mut one = vec!["x"];
    let mut a = 0;
    assert!(!apply_tab_command(&mut one, &mut a, TabCommand::Close));
    assert!(!apply_tab_command(&mut one, &mut a, TabCommand::Next));
    assert_eq!(one, vec!["x"]);
}

#[test]
fn goto_history_steps_through_entries() {
    assert_eq!(goto_history_back(0, None), None);
    assert_eq!(goto_history_back(3, None), Some(2));
    assert_eq!(goto_history_back(3, Some(2)), Some(1));
    assert_eq!(goto_history_back(3, Some(0)), Some(2));
    assert_eq!(goto_history_forward(3, Some(1)), Some(Some(2)));
    assert_eq!(goto_history_forward(3, Some(2)), Some(None));
    assert_eq!(goto_history_forward(3, None), Some(Some(2)));
    assert_eq!(goto_history_forward(0, None), None);
}

#[test]
fn confirmed_actions_need_a_second_press() {
    let mut state = BrowserState::new(PageLocation::Web("w".to_string()), Config::default());
    assert!(!confirm_action(&mut state, "delete", "/actions/delete", Some("Really delete?")));
    assert_eq!(state.status, "Really delete? Press Enter again to confirm.");
    assert_eq!(
        state.pending_confirmation,
        Some(ActionConfirmation { id: "delete".to_string(), target: "/actions/delete".to_string() })
    );
    assert!(confirm_action(&mut state, "delete", "/actions/delete", Some("Really delete?")));
    assert_eq!(state.pending_confirmation, None);
    assert!(confirm_action(&mut state, "go", "/go", None));
}
