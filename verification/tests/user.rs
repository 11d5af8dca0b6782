use rusty_irc::irc::user::User;

#[test]
fn new_user_has_only_a_host() {
    let u = User::new("10.0.0.1".to_string());
    assert_eq!(u.host, "10.0.0.1");
    assert_eq!(u.name, "");
    assert_eq!(u.nick, "");
    assert_eq!(u.real, "");
    assert_eq!(u.mode, 255);
}

#[test]
fn user_is_written_as_a_prefix() {
    let mut u = User::new("h".to_string());
    u.nick = "n".to_string();
    u.name = "u".to_string();
    assert_eq!(u.to_string(), ":n!u@h");
    assert_eq!(User::new("host".to_string()).to_string(), ":!@host");
}
