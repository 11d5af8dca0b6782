use mio::tcp::TcpListener;
use rusty_irc::irc::message::{Message, ServerMessage};
use rusty_irc::logging::Level;
use rusty_irc::network_interface::handler::{listen_address, HandlerAction, ServerHandler, SERVER_TOKEN};
use rusty_irc::network_interface::user::Client;

fn listener() -> TcpListener {
    let addr = "127.0.0.1:0".parse().unwrap();
    TcpListener::bind(&addr).unwrap()
}

/// A stand-in for a client's connection: the server only carries it.
fn connect(_l: &()) -> u32 {
    7
}

fn server() -> (ServerHandler<u32>, ()) {
    (ServerHandler::<u32>::new(listener()), ())
}

fn add_user(h: &mut ServerHandler<u32>, l: &(), token: usize, name: &str) {
    let mut c = Client::new(connect(l), "127.0.0.1".to_string());
    assert_eq!(c.set_username(name.to_string()), Ok(()));
    assert!(h.insert_client(token, c).is_none());
}

fn msg() -> Message {
    Message { prefix: "p".to_string(), command: "c".to_string(), parameters: vec!["a".to_string()] }
}

fn single_log(actions: &[HandlerAction]) -> (String, String) {
    assert_eq!(actions.len(), 1);
    match &actions[0] {
        HandlerAction::Log(level, line) => {
            let l = match level {
                Level::ERR => "ERR",
                Level::INFO => "INFO",
                Level::DEBUG => "DEBUG",
            };
            (l.to_string(), line.clone())
        }
        _ => panic!("expected a log line"),
    }
}

fn members(h: &ServerHandler<u32>, name: &str) -> Option<Vec<usize>> {
    h.channel_members(&name.to_string()).map(|v| v.clone())
}

#[test]
fn new_server_is_empty() {
    let (h, _l) = server();
    assert_eq!(h.client_count(), 0);
    assert_eq!(h.token_counter(), 1);
    assert!(members(&h, "#a").is_none());
}

#[test]
fn first_client_gets_token_one() {
    let (mut h, l) = server();
    let (tok, old) = h.register_client(connect(&l), "9.9.9.9".to_string());
    assert_eq!(tok, 1);
    assert!(old.is_none());
    assert_ne!(tok, SERVER_TOKEN);
    let c = h.client(1).unwrap();
    assert_eq!(c.irc_user.host, "9.9.9.9");
    assert_eq!(c.irc_user.mode, 255);
    assert_eq!(h.token_counter(), 1);
}

#[test]
fn next_client_gets_the_next_free_token() {
    let (mut h, l) = server();
    let (t1, _) = h.register_client(connect(&l), "1.1.1.1".to_string());
    let (t2, old) = h.register_client(connect(&l), "2.2.2.2".to_string());
    assert_eq!(t1, 1);
    assert_eq!(t2, 2);
    assert!(old.is_none());
    assert_eq!(h.token_counter(), 2);
    assert_eq!(h.client_count(), 2);
    assert_eq!(h.client(1).unwrap().irc_user.host, "1.1.1.1");
    assert_eq!(h.client(2).unwrap().irc_user.host, "2.2.2.2");
}

#[test]
fn taken_tokens_are_skipped_and_freed_ones_reused_later() {
    let (mut h, l) = server();
    add_user(&mut h, &l, 2, "a");
    add_user(&mut h, &l, 3, "b");
    let (t1, _) = h.register_client(connect(&l), "x".to_string());
    assert_eq!(t1, 1);
    let (t2, old) = h.register_client(connect(&l), "y".to_string());
    assert_eq!(t2, 4);
    assert!(old.is_none());
    assert!(h.remove_client(2).is_some());
    let (t3, _) = h.register_client(connect(&l), "z".to_string());
    assert_eq!(t3, 5);
    assert_eq!(h.client_count(), 4);
}

#[test]
fn quit_shuts_the_loop_down() {
    let (mut h, _l) = server();
    let a = h.notify(ServerMessage::QUIT);
    assert_eq!(a.len(), 1);
    assert!(matches!(a[0], HandlerAction::Shutdown));
}

#[test]
fn unknown_users_are_reported() {
    let (mut h, _l) = server();
    let a = h.notify(ServerMessage::ADD("#a".to_string(), "bob".to_string()));
    assert_eq!(single_log(&a), ("ERR".to_string(), "User \"bob\" has disconnected".to_string()));
    let a = h.notify(ServerMessage::REMOVE("#a".to_string(), "bob".to_string()));
    assert_eq!(single_log(&a), ("ERR".to_string(), "User \"bob\" has disconnected".to_string()));
    let a = h.notify(ServerMessage::DISCON("bob".to_string()));
    assert_eq!(single_log(&a), ("ERR".to_string(), "User \"bob\" has already been disconnected".to_string()));
    let a = h.notify(ServerMessage::USERMSG("zed".to_string(), msg()));
    assert_eq!(single_log(&a), ("ERR".to_string(), "User with the name zed does not exist".to_string()));
    assert!(members(&h, "#a").is_none());
}

#[test]
fn add_appends_members_in_order() {
    let (mut h, l) = server();
    add_user(&mut h, &l, 1, "alice");
    add_user(&mut h, &l, 2, "bob");
    assert!(h.notify(ServerMessage::ADD("#c".to_string(), "alice".to_string())).is_empty());
    assert!(h.notify(ServerMessage::ADD("#c".to_string(), "bob".to_string())).is_empty());
    assert!(h.notify(ServerMessage::ADD("#c".to_string(), "alice".to_string())).is_empty());
    assert_eq!(members(&h, "#c"), Some(vec![1, 2, 1]));
}

#[test]
fn remove_takes_out_the_first_occurrence() {
    let (mut h, l) = server();
    add_user(&mut h, &l, 1, "alice");
    add_user(&mut h, &l, 2, "bob");
    for who in ["alice", "bob", "alice"] {
        h.notify(ServerMessage::ADD("#c".to_string(), who.to_string()));
    }
    let a = h.notify(ServerMessage::REMOVE("#c".to_string(), "alice".to_string()));
    assert_eq!(
        single_log(&a),
        ("INFO".to_string(), "User \"alice\" has been removed from the channel \"#c\"".to_string())
    );
    assert_eq!(members(&h, "#c"), Some(vec![2, 1]));
}

#[test]
fn remove_reports_missing_members_and_channels() {
    let (mut h, l) = server();
    add_user(&mut h, &l, 1, "alice");
    add_user(&mut h, &l, 2, "bob");
    h.notify(ServerMessage::ADD("#c".to_string(), "bob".to_string()));
    let a = h.notify(ServerMessage::REMOVE("#c".to_string(), "alice".to_string()));
    assert_eq!(single_log(&a), ("ERR".to_string(), "User \"alice\" is not in the channel named #c".to_string()));
    let a = h.notify(ServerMessage::REMOVE("#x".to_string(), "alice".to_string()));
    assert_eq!(
        single_log(&a),
        ("ERR".to_string(), "attempt to remove user \"alice\" from a non-existant channel".to_string())
    );
    assert_eq!(members(&h, "#c"), Some(vec![2]));
    assert!(members(&h, "#x").is_none());
}

#[test]
fn remove_undoes_add() {
    let (mut h, l) = server();
    add_user(&mut h, &l, 1, "alice");
    add_user(&mut h, &l, 2, "bob");
    h.notify(ServerMessage::ADD("#c".to_string(), "bob".to_string()));
    h.notify(ServerMessage::ADD("#c".to_string(), "alice".to_string()));
    h.notify(ServerMessage::REMOVE("#c".to_string(), "alice".to_string()));
    assert_eq!(members(&h, "#c"), Some(vec![2]));
    // a channel created by the add stays, empty
    h.notify(ServerMessage::ADD("#new".to_string(), "alice".to_string()));
    h.notify(ServerMessage::REMOVE("#new".to_string(), "alice".to_string()));
    assert_eq!(members(&h, "#new"), Some(vec![]));
}

#[test]
fn disconnect_leaves_every_channel_and_the_client_list() {
    let (mut h, l) = server();
    add_user(&mut h, &l, 1, "alice");
    add_user(&mut h, &l, 2, "bob");
    for (c, who) in [("#a", "bob"), ("#a", "alice"), ("#b", "bob"), ("#b", "bob"), ("#c", "alice")] {
        h.notify(ServerMessage::ADD(c.to_string(), who.to_string()));
    }
    assert!(h.notify(ServerMessage::DISCON("bob".to_string())).is_empty());
    assert!(h.client(2).is_none());
    assert_eq!(h.client_count(), 1);
    assert_eq!(members(&h, "#a"), Some(vec![1]));
    assert_eq!(members(&h, "#b"), Some(vec![]));
    assert_eq!(members(&h, "#c"), Some(vec![1]));
}

#[test]
fn channel_message_is_queued_for_each_member() {
    let (mut h, l) = server();
    add_user(&mut h, &l, 1, "alice");
    add_user(&mut h, &l, 2, "bob");
    h.notify(ServerMessage::ADD("#c".to_string(), "bob".to_string()));
    h.notify(ServerMessage::ADD("#c".to_string(), "alice".to_string()));
    let a = h.notify(ServerMessage::CHANMSG("#c".to_string(), msg()));
    assert_eq!(a.len(), 2);
    let tokens: Vec<usize> = a
        .iter()
        .map(|x| match x {
            HandlerAction::QueueForToken(t, m) => {
                assert_eq!(m.to_string(), "p c a ");
                *t
            }
            _ => panic!("expected a queued message"),
        })
        .collect();
    assert_eq!(tokens, vec![2, 1]);
    let a = h.notify(ServerMessage::CHANMSG("#none".to_string(), msg()));
    assert_eq!(single_log(&a), ("ERR".to_string(), "channel \"#none\" does not exist".to_string()));
}

#[test]
fn user_message_is_queued_then_delivered() {
    let (mut h, l) = server();
    add_user(&mut h, &l, 4, "alice");
    let a = h.notify(ServerMessage::USERMSG("alice".to_string(), msg()));
    assert_eq!(a.len(), 2);
    assert!(matches!(&a[0], HandlerAction::QueueForToken(4, m) if m.command == "c"));
    match &a[1] {
        HandlerAction::Deliver(t, m, report) => {
            assert_eq!(*t, 4);
            assert_eq!(m.prefix, "p");
            assert_eq!(report, "Message: p c a \nReciever: alice");
        }
        _ => panic!("expected a delivery"),
    }
}

#[test]
fn shared_names_resolve_to_the_smallest_token() {
    let (mut h, l) = server();
    add_user(&mut h, &l, 7, "x");
    add_user(&mut h, &l, 3, "x");
    add_user(&mut h, &l, 5, "x");
    h.notify(ServerMessage::ADD("#c".to_string(), "x".to_string()));
    assert_eq!(members(&h, "#c"), Some(vec![3]));
}

#[test]
fn other_requests_change_nothing() {
    let (mut h, l) = server();
    add_user(&mut h, &l, 1, "alice");
    assert!(h.notify(ServerMessage::SERVMSG(msg())).is_empty());
    assert!(h.notify(ServerMessage::USERTOKENMSG(1, msg())).is_empty());
    assert_eq!(h.client_count(), 1);
}

#[test]
fn clients_can_be_taken_out_and_put_back() {
    let (mut h, l) = server();
    add_user(&mut h, &l, 1, "alice");
    let c = h.remove_client(1).unwrap();
    assert!(h.client(1).is_none());
    assert!(h.remove_client(1).is_none());
    assert!(h.insert_client(1, c).is_none());
    assert_eq!(h.client(1).unwrap().irc_user.name, "alice");
}

#[test]
fn listen_address_is_written_in_decimal() {
    assert_eq!(listen_address(1234), "0.0.0.0:1234");
    assert_eq!(listen_address(0), "0.0.0.0:0");
    assert_eq!(listen_address(u32::MAX), "0.0.0.0:4294967295");
}
