use rusty_irc::network_interface::channels::{ChannelList, RemoveOutcome};

fn get(c: &ChannelList, name: &str) -> Option<Vec<usize>> {
    c.members(&name.to_string()).map(|v| v.clone())
}

#[test]
fn new_list_has_no_channels() {
    let c = ChannelList::new();
    assert_eq!(get(&c, "#a"), None);
}

#[test]
fn append_creates_then_extends() {
    let mut c = ChannelList::new();
    c.append_member("#a".to_string(), 3);
    c.append_member("#b".to_string(), 1);
    c.append_member("#a".to_string(), 3);
    c.append_member("#a".to_string(), 9);
    assert_eq!(get(&c, "#a"), Some(vec![3, 3, 9]));
    assert_eq!(get(&c, "#b"), Some(vec![1]));
}

#[test]
fn remove_member_outcomes() {
    let mut c = ChannelList::new();
    c.append_member("#a".to_string(), 3);
    c.append_member("#a".to_string(), 5);
    c.append_member("#a".to_string(), 3);
    assert!(matches!(c.remove_member(&"#z".to_string(), 3), RemoveOutcome::NoSuchChannel));
    assert!(matches!(c.remove_member(&"#a".to_string(), 4), RemoveOutcome::NotMember));
    assert!(matches!(c.remove_member(&"#a".to_string(), 3), RemoveOutcome::Removed));
    assert_eq!(get(&c, "#a"), Some(vec![5, 3]));
    assert_eq!(get(&c, "#z"), None);
}

#[test]
fn remove_everywhere_takes_every_occurrence() {
    let mut c = ChannelList::new();
    for (name, t) in [("#a", 1), ("#a", 2), ("#a", 1), ("#b", 2), ("#c", 1)] {
        c.append_member(name.to_string(), t);
    }
    c.remove_everywhere(1);
    assert_eq!(get(&c, "#a"), Some(vec![2]));
    assert_eq!(get(&c, "#b"), Some(vec![2]));
    assert_eq!(get(&c, "#c"), Some(vec![]));
}
