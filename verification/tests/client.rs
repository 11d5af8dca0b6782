use rusty_irc::network_interface::user::Client;

/// A stand-in for a connection: the client only carries its socket.
fn stream() -> ((), u32) {
    ((), 42)
}

#[test]
fn new_client_is_a_fresh_user_on_its_address() {
    let (_l, s) = stream();
    let c = Client::new(s, "1.2.3.4".to_string());
    assert_eq!(c.socket, 42);
    assert_eq!(c.irc_user.host, "1.2.3.4");
    assert_eq!(c.irc_user.name, "");
    assert_eq!(c.irc_user.nick, "");
    assert_eq!(c.irc_user.real, "");
    assert_eq!(c.irc_user.mode, 255);
}

#[test]
fn nick_and_mode_can_change_any_time() {
    let (_l, s) = stream();
    let mut c = Client::new(s, "h".to_string());
    c.set_nick("a".to_string());
    c.set_nick("b".to_string());
    assert_eq!(c.irc_user.nick, "b");
    c.set_mode(3);
    assert_eq!(c.irc_user.mode, 3);
    assert_eq!(c.irc_user.host, "h");
}

#[test]
fn real_name_is_set_once() {
    let (_l, s) = stream();
    let mut c = Client::new(s, "h".to_string());
    assert_eq!(c.set_real("Ann".to_string()), Ok(()));
    assert_eq!(c.set_real("Bob".to_string()), Err("Real name has already been set"));
    assert_eq!(c.irc_user.real, "Ann");
}

#[test]
fn empty_real_name_can_be_replaced() {
    let (_l, s) = stream();
    let mut c = Client::new(s, "h".to_string());
    assert_eq!(c.set_real(String::new()), Ok(()));
    assert_eq!(c.set_real("Bob".to_string()), Ok(()));
    assert_eq!(c.irc_user.real, "Bob");
}

#[test]
fn username_is_set_once() {
    let (_l, s) = stream();
    let mut c = Client::new(s, "h".to_string());
    assert_eq!(c.set_username("ann".to_string()), Ok(()));
    assert_eq!(c.set_username("bob".to_string()), Err("Username has already been set"));
    assert_eq!(c.irc_user.name, "ann");
}
