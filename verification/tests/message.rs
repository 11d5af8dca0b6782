use rusty_irc::irc::message::Message;
use rusty_irc::irc::user::User;

fn sender() -> User {
    let mut u = User::new("example.org".to_string());
    u.nick = "nick".to_string();
    u.name = "name".to_string();
    u
}

fn strings(v: &[&str]) -> Vec<String> {
    v.iter().map(|s| s.to_string()).collect()
}

#[test]
fn empty_line_is_refused() {
    let r = Message::new(String::new(), &sender());
    assert!(matches!(r, Err("Empty String")));
}

#[test]
fn prefix_without_command_is_refused() {
    let r = Message::new(":server".to_string(), &sender());
    assert!(matches!(r, Err("The Message is not a complete string")));
}

#[test]
fn line_without_prefix_takes_the_senders_text() {
    let m = Message::new("NICK bob".to_string(), &sender()).ok().unwrap();
    assert_eq!(m.prefix, ":nick!name@example.org");
    assert_eq!(m.command, "NICK");
    assert_eq!(m.parameters, strings(&["bob", ""]));
}

#[test]
fn line_with_prefix_and_trailing_parameter() {
    let m = Message::new(":irc.example PRIVMSG #rust :hello world".to_string(), &sender()).ok().unwrap();
    assert_eq!(m.prefix, ":irc.example");
    assert_eq!(m.command, "PRIVMSG");
    // the trailing parameter keeps its colon and its spaces
    assert_eq!(m.parameters, strings(&["#rust", ":hello world"]));
}

#[test]
fn empty_pieces_before_the_trailing_parameter_are_skipped() {
    let m = Message::new("JOIN  #a".to_string(), &sender()).ok().unwrap();
    assert_eq!(m.command, "JOIN");
    assert_eq!(m.parameters, strings(&["#a", ""]));
}

#[test]
fn command_only_has_one_empty_parameter() {
    let m = Message::new("PING".to_string(), &sender()).ok().unwrap();
    assert_eq!(m.command, "PING");
    assert_eq!(m.parameters, strings(&[""]));
    let m = Message::new(":p CMD".to_string(), &sender()).ok().unwrap();
    assert_eq!(m.prefix, ":p");
    assert_eq!(m.command, "CMD");
    assert_eq!(m.parameters, strings(&[""]));
}

#[test]
fn later_colons_belong_to_the_trailing_parameter() {
    let m = Message::new("A :x :y z".to_string(), &sender()).ok().unwrap();
    assert_eq!(m.parameters, strings(&[":x :y z"]));
}

#[test]
fn prefix_only_with_trailing_space() {
    let m = Message::new(":p ".to_string(), &sender()).ok().unwrap();
    assert_eq!(m.prefix, ":p");
    assert_eq!(m.command, "");
    assert_eq!(m.parameters, strings(&[""]));
}

#[test]
fn non_ascii_text_is_cut_by_characters() {
    let m = Message::new("ÉTÉ ça :déjà vu".to_string(), &sender()).ok().unwrap();
    assert_eq!(m.command, "ÉTÉ");
    assert_eq!(m.parameters, strings(&["ça", ":déjà vu"]));
}

#[test]
fn middle_parameters_are_never_empty_nor_colon_led() {
    let m = Message::new("X  a : b :c".to_string(), &sender()).ok().unwrap();
    assert_eq!(m.parameters, strings(&["a", ": b :c"]));
    let last = m.parameters.len() - 1;
    for p in &m.parameters[..last] {
        assert!(!p.is_empty() && !p.starts_with(':'));
    }
}

#[test]
fn message_is_written_with_a_space_after_each_parameter() {
    let m = Message { prefix: "p".to_string(), command: "c".to_string(), parameters: strings(&["a", "b"]) };
    assert_eq!(m.to_string(), "p c a b ");
    let m = Message { prefix: "p".to_string(), command: "c".to_string(), parameters: Vec::new() };
    assert_eq!(m.to_string(), "p c ");
}

#[test]
fn parsed_message_written_out() {
    let m = Message::new(":me PRIVMSG #chan :hi".to_string(), &sender()).ok().unwrap();
    assert_eq!(m.to_string(), ":me PRIVMSG #chan :hi ");
}

#[test]
fn duplicate_keeps_every_part() {
    let m = Message { prefix: "p".to_string(), command: "c".to_string(), parameters: strings(&["a", ""]) };
    let d = m.duplicate();
    assert_eq!(d.prefix, m.prefix);
    assert_eq!(d.command, m.command);
    assert_eq!(d.parameters, m.parameters);
}

#[test]
fn trailing_parameter_keeps_double_and_final_spaces() {
    let m = Message::new("A :b  c ".to_string(), &sender()).ok().unwrap();
    assert_eq!(m.parameters, strings(&[":b  c "]));
}

#[test]
fn line_is_rebuilt_from_its_parts() {
    let m = Message::new("A :b c".to_string(), &sender()).ok().unwrap();
    assert_eq!(m.command, "A");
    assert_eq!(m.parameters, strings(&[":b c"]));
    let rebuilt = format!("{} {}", m.command, m.parameters[0]);
    assert_eq!(rebuilt, "A :b c");
    let m = Message::new(":me PRIVMSG #c x :hi there".to_string(), &sender()).ok().unwrap();
    let rebuilt = format!("{} {} {} {} {}", m.prefix, m.command, m.parameters[0], m.parameters[1], m.parameters[2]);
    assert_eq!(rebuilt, ":me PRIVMSG #c x :hi there");
}
