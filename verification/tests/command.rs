use led_httpd::command::{bytes_equal, classify, Command, PinLevel, LED_OFF, LED_ON};

#[test]
fn led_on_is_recognized() {
    assert_eq!(classify(b"led=on"), Command::LedOn);
    assert_eq!(classify(&LED_ON), Command::LedOn);
}

#[test]
fn led_off_is_recognized() {
    assert_eq!(classify(b"led=off"), Command::LedOff);
    assert_eq!(classify(&LED_OFF), Command::LedOff);
}

#[test]
fn constants_spell_the_commands() {
    assert_eq!(&LED_ON[..], b"led=on");
    assert_eq!(&LED_OFF[..], b"led=off");
}

#[test]
fn other_bodies_are_unrecognized() {
    assert_eq!(classify(b""), Command::Unrecognized);
    assert_eq!(classify(b"led=o"), Command::Unrecognized);
    assert_eq!(classify(b"led=on "), Command::Unrecognized);
    assert_eq!(classify(b" led=on"), Command::Unrecognized);
    assert_eq!(classify(b"LED=ON"), Command::Unrecognized);
    assert_eq!(classify(b"led=offf"), Command::Unrecognized);
    assert_eq!(classify(b"led=on\r\n"), Command::Unrecognized);
    assert_eq!(classify(b"led=toggle"), Command::Unrecognized);
}

#[test]
fn commands_set_the_pin_level() {
    assert_eq!(Command::LedOn.level(), Some(PinLevel::High));
    assert_eq!(Command::LedOff.level(), Some(PinLevel::Low));
    assert_eq!(Command::Unrecognized.level(), None);
}

#[test]
fn bytes_equal_compares_content() {
    assert!(bytes_equal(b"", b""));
    assert!(bytes_equal(b"abc", b"abc"));
    assert!(!bytes_equal(b"abc", b"abd"));
    assert!(!bytes_equal(b"abc", b"ab"));
    assert!(!bytes_equal(b"ab", b"abc"));
    assert!(!bytes_equal(b"xbc", b"abc"));
}
