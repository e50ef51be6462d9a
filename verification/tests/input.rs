use tfocus::input::{
    operation_input_for_event, parse_operation_key, InputHandler, KeyCode, KeyEvent, KeyEventKind,
    KeyModifiers, OperationInputAction,
};
use tfocus::types::Operation;

#[test]
fn test_parse_operation_key_plan_lowercase() {
    let key = KeyEvent::new(KeyCode::Char('p'), KeyModifiers::none());
    assert!(matches!(
        parse_operation_key(key),
        OperationInputAction::Select(Operation::Plan)
    ));
}

#[test]
fn test_parse_operation_key_plan_uppercase() {
    let key = KeyEvent::new(KeyCode::Char('P'), KeyModifiers::shift());
    assert!(matches!(
        parse_operation_key(key),
        OperationInputAction::Select(Operation::Plan)
    ));
}

#[test]
fn test_parse_operation_key_apply_lowercase() {
    let key = KeyEvent::new(KeyCode::Char('a'), KeyModifiers::none());
    assert!(matches!(
        parse_operation_key(key),
        OperationInputAction::Select(Operation::Apply)
    ));
}

#[test]
fn test_parse_operation_key_apply_uppercase() {
    let key = KeyEvent::new(KeyCode::Char('A'), KeyModifiers::shift());
    assert!(matches!(
        parse_operation_key(key),
        OperationInputAction::Select(Operation::Apply)
    ));
}

#[test]
fn test_parse_operation_key_ctrl_c_cancels() {
    let key = KeyEvent::new(KeyCode::Char('c'), KeyModifiers::control());
    assert!(matches!(
        parse_operation_key(key),
        OperationInputAction::Cancel
    ));
}

#[test]
fn test_parse_operation_key_escape_cancels() {
    let key = KeyEvent::new(KeyCode::Esc, KeyModifiers::none());
    assert!(matches!(
        parse_operation_key(key),
        OperationInputAction::Cancel
    ));
}

#[test]
fn test_parse_operation_key_number_is_ignored() {
    let key = KeyEvent::new(KeyCode::Char('1'), KeyModifiers::none());
    assert!(matches!(
        parse_operation_key(key),
        OperationInputAction::Ignore
    ));
}

#[test]
fn test_parse_operation_key_other_key_is_ignored() {
    let key = KeyEvent::new(KeyCode::Up, KeyModifiers::none());
    assert!(matches!(
        parse_operation_key(key),
        OperationInputAction::Ignore
    ));
}

#[test]
fn ctrl_shift_c_cancels_and_other_modifiers_are_ignored() {
    let ctrl_shift = KeyModifiers::from_bits(0b11);
    assert_eq!(
        parse_operation_key(KeyEvent::new(KeyCode::Char('C'), ctrl_shift)),
        OperationInputAction::Cancel
    );
    assert_eq!(
        parse_operation_key(KeyEvent::new(KeyCode::Char('p'), KeyModifiers::control())),
        OperationInputAction::Ignore
    );
    let alt = KeyModifiers::from_bits(0b100);
    assert_eq!(
        parse_operation_key(KeyEvent::new(KeyCode::Char('a'), alt)),
        OperationInputAction::Ignore
    );
    assert_eq!(
        parse_operation_key(KeyEvent::new(KeyCode::Char('c'), KeyModifiers::none())),
        OperationInputAction::Ignore
    );
    assert_eq!(
        parse_operation_key(KeyEvent::new(KeyCode::Esc, ctrl_shift)),
        OperationInputAction::Cancel
    );
}

#[test]
fn only_key_presses_count() {
    let mut key = KeyEvent::new(KeyCode::Char('p'), KeyModifiers::none());
    assert_eq!(operation_input_for_event(key), OperationInputAction::Select(Operation::Plan));
    key.kind = KeyEventKind::Release;
    assert_eq!(operation_input_for_event(key), OperationInputAction::Ignore);
    key.kind = KeyEventKind::Repeat;
    assert_eq!(operation_input_for_event(key), OperationInputAction::Ignore);
}

#[test]
fn input_handler_is_created() {
    assert!(InputHandler::new().is_ok());
}

#[test]
fn operation_names() {
    assert_eq!(Operation::Plan.to_string(), "plan");
    assert_eq!(Operation::Apply.name(), "apply");
}
