use kbswitch::keyboard::{
    key_code_to_char, key_to_char, next_key_outcome, Debounce, KbError, PollEvent,
};
use kbswitch::Layout;

#[test]
fn test_key_code_to_char_table() {
    assert_eq!(Some('a'), key_code_to_char(38));
    assert_eq!(Some('w'), key_code_to_char(25));
    assert_eq!(Some(' '), key_code_to_char(65));
    assert_eq!(Some('2'), key_code_to_char(11));
    assert_eq!(None, key_code_to_char(1));
    assert_eq!(None, key_code_to_char(-7));
}

#[test]
fn test_key_to_char_table() {
    assert_eq!(Some('a'), key_to_char(30));
    assert_eq!(Some('w'), key_to_char(17));
    assert_eq!(Some(' '), key_to_char(57));
    // The device table deliberately maps the semicolon key to a comma.
    assert_eq!(Some(','), key_to_char(39));
    assert_eq!(Some(','), key_to_char(51));
    assert_eq!(None, key_to_char(0));
    assert_eq!(None, key_to_char(42));
}

#[test]
fn test_next_key_outcome_decodes() {
    assert_eq!(Ok(Some('a')), next_key_outcome(PollEvent::Code(38)));
    assert_eq!(Ok(None), next_key_outcome(PollEvent::Code(1)));
    assert_eq!(Ok(None), next_key_outcome(PollEvent::Empty));
}

#[test]
fn test_closed_stream_surfaces_io_error() {
    // An abruptly ended scanner stream is seen as IOError on the very next
    // poll, whether the scanner reported the failure or vanished outright.
    assert_eq!(Err(KbError::IOError), next_key_outcome(PollEvent::Failed));
    assert_eq!(Err(KbError::IOError), next_key_outcome(PollEvent::Disconnected));
}

#[test]
fn test_debounce_gates_every_other_event() {
    let mut d = Debounce::new();
    assert!(!d.observe());
    assert!(d.observe());
    assert!(!d.observe());
    assert!(d.observe());
}

#[test]
fn test_xkb_names() {
    assert_eq!("us", Layout::US.xkb_name());
    assert_eq!("us(dvorak)", Layout::Dvorak.xkb_name());
}
