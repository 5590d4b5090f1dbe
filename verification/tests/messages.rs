use vrc_join_notificator::idms::{
    basic_auth, idms_authorization, idms_tag, log_upload_enabled, picture_date, picture_date_cuttable, service_enabled,
    upload_tag,
};
use vrc_join_notificator::image::{webp_first_pass, webp_next_pass, WebpPass};
use vrc_join_notificator::webhook::{
    invite_notice, needs_compression, picture_post_text, resolution_setting, InviteNotice,
};
use vrc_join_notificator::xsoverlay::overlay_for_users;

fn strings(items: &[&str]) -> Vec<String> {
    items.iter().map(|s| s.to_string()).collect()
}

fn sent(n: InviteNotice) -> Option<(String, String)> {
    match n {
        InviteNotice::Send { actor_name, content } => Some((actor_name, content)),
        _ => None,
    }
}

#[test]
fn invite_becomes_a_message() {
    let l = "Received Notification: <Notification from username:Bob, sender user id:usr_1, type: invite, id: n>";
    assert_eq!(
        sent(invite_notice(l)),
        Some(("Invite".to_string(), "Bobさんから招待が届きました。".to_string()))
    );
}

#[test]
fn request_invite_becomes_a_message() {
    let l = "Received Notification: <Notification from username:Ann Lee, sender user id:usr_2, type: requestInvite>";
    assert_eq!(
        sent(invite_notice(l)),
        Some((
            "ReqIn".to_string(),
            "Ann Leeさんがあなたのインスタンスに入りたがっています。".to_string()
        ))
    );
}

#[test]
fn other_notifications_are_ignored() {
    assert!(matches!(invite_notice("no user here"), InviteNotice::Ignore));
    let l = "username:Bob, sender user id:usr_1, type: friendRequest";
    assert!(matches!(invite_notice(l), InviteNotice::Ignore));
    let short = "username:B, sender user id:usr_1, type: invite";
    assert!(matches!(invite_notice(short), InviteNotice::Ignore));
}

#[test]
fn unreadable_user_name_is_reported() {
    assert!(matches!(invite_notice("username:Bob without the id, type: invite"), InviteNotice::Malformed));
    assert!(matches!(invite_notice("username:Bo\nb, sender user id:x type: invite"), InviteNotice::Malformed));
}

#[test]
fn user_name_match_is_greedy() {
    let l = "username:A, sender user id:x, sender user id:y type: invite";
    assert_eq!(
        sent(invite_notice(l)),
        Some(("Invite".to_string(), "A, sender user id:xさんから招待が届きました。".to_string()))
    );
}

#[test]
fn two_byte_name_is_enough() {
    let l = "username:é, sender user id:x type: invite";
    assert_eq!(sent(invite_notice(l)).unwrap().1, "éさんから招待が届きました。");
}

#[test]
fn picture_text_lists_world_and_users() {
    assert_eq!(
        picture_post_text("Pug", &strings(&["A", "B"])),
        "ワールド名: Pug\n\nユーザー\nA\nB"
    );
}

#[test]
fn compression_threshold() {
    assert!(!needs_compression(9_999_999));
    assert!(needs_compression(10_000_000));
}

#[test]
fn resolution_from_setting() {
    assert_eq!(resolution_setting(&Some("3840".to_string())), 3840);
    assert_eq!(resolution_setting(&Some("x".to_string())), 0);
    assert_eq!(resolution_setting(&Some("4294967296".to_string())), 0);
    assert_eq!(resolution_setting(&None), 0);
}

#[test]
fn basic_auth_is_base64_of_user_and_password() {
    assert_eq!(basic_auth("user", "pass"), "Basic dXNlcjpwYXNz");
    assert_eq!(basic_auth("", ""), "Basic Og==");
    assert_eq!(basic_auth("ab", ""), "Basic YWI6");
    assert_eq!(basic_auth("日", "x"), "Basic 5pelOng=");
}

#[test]
fn authorization_off_for_none() {
    assert_eq!(idms_authorization("none", "pw"), None);
    assert_eq!(idms_authorization("u", "p"), Some("Basic dTpw".to_string()));
}

#[test]
fn service_switch() {
    assert!(service_enabled(&Some("https://x".to_string())));
    assert!(!service_enabled(&Some("none".to_string())));
    assert!(!service_enabled(&Some("".to_string())));
    assert!(!service_enabled(&None));
}

#[test]
fn picture_date_from_name() {
    let name = "VRChat_2024-01-02_03-04-05.678_1920x1080.png";
    assert!(picture_date_cuttable(name));
    assert_eq!(picture_date(name), "20240102030405");
    assert!(!picture_date_cuttable("short.png"));
}

#[test]
fn tags() {
    assert_eq!(idms_tag("W", &strings(&["a", "b"])), "W00and00a00and00b");
    assert_eq!(idms_tag("W", &strings(&[])), "W00and00");
    assert_eq!(upload_tag("W", &strings(&["a", "b"])), "W\na\nb");
}

#[test]
fn webp_passes() {
    let first = webp_first_pass();
    assert!(matches!(first, WebpPass::Lossless));
    assert!(webp_next_pass(first, 9_999_998).is_none());
    assert!(webp_next_pass(first, 9_999_999).is_none());
    assert!(matches!(webp_next_pass(first, 10_000_000), Some(WebpPass::Lossy(100))));
    assert!(matches!(webp_next_pass(WebpPass::Lossy(100), 20_000_000), Some(WebpPass::Lossy(90))));
    assert!(webp_next_pass(WebpPass::Lossy(90), 5).is_none());
}

#[test]
fn overlay_titles() {
    let (t, c) = overlay_for_users(1, &strings(&["a", "b"]), 12).unwrap();
    assert_eq!((t.as_str(), c.as_str()), ("JOIN [ 12人]", "a\nb"));
    let (t, _) = overlay_for_users(2, &strings(&["a"]), 1234).unwrap();
    assert_eq!(t, "LEFT [1234人]");
    assert!(overlay_for_users(3, &strings(&["a"]), 1).is_none());
}

#[test]
fn log_upload_switch() {
    assert!(log_upload_enabled(&Some("https://x".to_string())));
    assert!(log_upload_enabled(&Some("".to_string())));
    assert!(!log_upload_enabled(&Some("none".to_string())));
    assert!(!log_upload_enabled(&None));
}
