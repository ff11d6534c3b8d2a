use relay_core::chat_log::{ChatEntry, ChatLog};

#[test]
fn system_entry_renders_with_fixed_author() {
    let e = ChatEntry::system(String::from("Succesfully connected to server!"));
    assert_eq!(e.get_author(), "SYSTEM");
    assert_eq!(e.get_text(), "Succesfully connected to server!");
}

#[test]
fn user_entry_renders_with_its_author() {
    let e = ChatEntry::user(String::from("alice"), String::from("hello"));
    assert_eq!(e.get_author(), "alice");
    assert_eq!(e.get_text(), "hello");
}

#[test]
fn log_keeps_arrival_order() {
    let mut log = ChatLog::new();
    assert_eq!(log.len(), 0);
    log.add(ChatEntry::system(String::from("Connecting to server...")));
    log.add(ChatEntry::user(String::from("bob"), String::from("hi")));
    log.add(ChatEntry::user(String::from("alice"), String::from("hey bob")));
    assert_eq!(log.len(), 3);
    assert_eq!(log.get(0).get_author(), "SYSTEM");
    assert_eq!(log.get(1).get_author(), "bob");
    assert_eq!(log.get(2).get_text(), "hey bob");
}
