use mouse_poll_rate_tester::messages::{classify, handle_message, is_client_area, MessageAction, WindowMessage};

#[test]
fn messages_map_to_actions() {
    assert_eq!(handle_message(WindowMessage::Create), MessageAction::RegisterRawInput);
    assert_eq!(handle_message(WindowMessage::Input), MessageAction::RecordEvent);
    assert_eq!(handle_message(WindowMessage::Paint), MessageAction::Repaint);
    assert_eq!(handle_message(WindowMessage::Destroy), MessageAction::Quit);
    assert_eq!(handle_message(WindowMessage::Other), MessageAction::PassToDefault);
    assert_eq!(handle_message(WindowMessage::SetCursor { lparam: 1 }), MessageAction::ShowArrowCursor);
    assert_eq!(handle_message(WindowMessage::SetCursor { lparam: 2 }), MessageAction::PassToDefault);
}

#[test]
fn client_area_is_read_from_the_low_word() {
    assert!(is_client_area(1));
    assert!(is_client_area(0x0200_0001));
    assert!(is_client_area(-65535));
    assert!(!is_client_area(0));
    assert!(!is_client_area(0x1_0000));
    assert!(!is_client_area(-1));
}

#[test]
fn answers_and_loop_control() {
    assert_eq!(MessageAction::ShowArrowCursor.answer(), Some(1));
    assert_eq!(MessageAction::PassToDefault.answer(), None);
    assert_eq!(MessageAction::Repaint.answer(), Some(0));
    assert_eq!(MessageAction::Quit.answer(), Some(0));
    assert!(!MessageAction::Quit.keeps_running());
    assert!(MessageAction::RecordEvent.keeps_running());
}

#[test]
fn message_codes_are_classified() {
    assert_eq!(classify(0x0001, 7), WindowMessage::Create);
    assert_eq!(classify(0x0002, 0), WindowMessage::Destroy);
    assert_eq!(classify(0x000F, 0), WindowMessage::Paint);
    assert_eq!(classify(0x0020, 0x0200_0001), WindowMessage::SetCursor { lparam: 0x0200_0001 });
    assert_eq!(classify(0x00FF, 0), WindowMessage::Input);
    assert_eq!(classify(0x0010, 0), WindowMessage::Other);
    assert_eq!(handle_message(classify(0x0020, 1)), MessageAction::ShowArrowCursor);
}
