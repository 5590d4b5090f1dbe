use vrc_join_notificator::function::{
    config_entry_value, config_line, debug_enabled, rm_id, user_push, user_remove,
};
use vrc_join_notificator::log_read::log_in_vec;

#[test]
fn rm_id_takes_off_the_user_id() {
    assert_eq!(rm_id("Alice (usr_0123-abcd)".to_string()), "Alice ");
    assert_eq!(rm_id("Bob(usr_x)".to_string()), "Bob");
}

#[test]
fn rm_id_keeps_a_name_without_id() {
    assert_eq!(rm_id("Carol".to_string()), "Carol");
    assert_eq!(rm_id("Dave (usr_1) trailing".to_string()), "Dave (usr_1) trailing");
    assert_eq!(rm_id("".to_string()), "");
}

#[test]
fn rm_id_takes_off_from_the_leftmost_id() {
    assert_eq!(rm_id("Eve (usr_1)(usr_2)".to_string()), "Eve ");
}

#[test]
fn rm_id_does_not_cross_a_line_feed() {
    assert_eq!(rm_id("Fay (usr_1\n)".to_string()), "Fay (usr_1\n)");
    assert_eq!(rm_id("Gus (usr_a\n(usr_b)".to_string()), "Gus (usr_a\n");
}

#[test]
fn rm_id_is_idempotent_on_examples() {
    for name in ["A (usr_1)", "B(usr_)x(usr_2)", "plain", "(usr_9)"] {
        let once = rm_id(name.to_string());
        assert_eq!(rm_id(once.clone()), once);
    }
    assert_eq!(rm_id("(usr_9)".to_string()), "");
}

#[test]
fn user_push_appends_the_name_without_id() {
    let mut users = vec!["Alice".to_string()];
    user_push(&mut users, "Bob (usr_22)");
    assert_eq!(users, vec!["Alice".to_string(), "Bob ".to_string()]);
}

#[test]
fn user_remove_removes_every_entry() {
    let mut users = vec!["Bob ".to_string(), "Alice".to_string(), "Bob ".to_string()];
    user_remove(&mut users, "Bob (usr_22)");
    assert_eq!(users, vec!["Alice".to_string()]);
    user_remove(&mut users, "Nobody");
    assert_eq!(users, vec!["Alice".to_string()]);
}

#[test]
fn join_then_leave_restores_the_list() {
    let mut users = vec!["Alice".to_string(), "Carol".to_string()];
    user_push(&mut users, "Bob (usr_1)");
    user_remove(&mut users, "Bob (usr_1)");
    assert_eq!(users, vec!["Alice".to_string(), "Carol".to_string()]);
}

#[test]
fn config_value_after_key_and_separator() {
    let lines = log_in_vec("# comment\ndebug_mode=true\ndiscord_webhook_url=https://x/y\n");
    let i = config_line(&lines, "discord_webhook_url").unwrap();
    assert_eq!(i, 2);
    assert_eq!(config_entry_value(&lines[i], "discord_webhook_url"), "https://x/y");
    assert_eq!(config_line(&lines, "idms_server_url"), None);
}

#[test]
fn config_line_takes_the_first_mention() {
    let lines = log_in_vec("a=1\nkey=first\nkey=second");
    assert_eq!(config_line(&lines, "key"), Some(1));
    assert_eq!(config_entry_value(&lines[1], "key"), "first");
}

#[test]
fn debug_mode_on_when_value_mentions_true() {
    assert!(debug_enabled(&Some("true".to_string())));
    assert!(debug_enabled(&Some("untrue".to_string())));
    assert!(!debug_enabled(&Some("false".to_string())));
    assert!(!debug_enabled(&None));
}
