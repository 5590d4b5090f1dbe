use std::collections::VecDeque;
use vrc_join_notificator::analyze::{
    line_fits_check, lines_analyzable, log_analyze, log_print, next_upload, queue_uploads,
    threads_setting, Notice, UploadData,
};

const PRE: &str = "2024.01.02 03:04:05 Log        -  ";

fn line(rest: &str) -> String {
    format!("{}{}", PRE, rest)
}

fn strings(items: &[&str]) -> Vec<String> {
    items.iter().map(|s| s.to_string()).collect()
}

fn logged(n: &Notice) -> Option<&str> {
    match n {
        Notice::Logged(s) => Some(s.as_str()),
        _ => None,
    }
}

#[test]
fn log_print_formats_date_and_time() {
    let l = line("whatever");
    assert_eq!(log_print(l, "JOIN: x".to_string()), "2024/01/02 03:04:05 JOIN: x");
}

#[test]
fn analysis_of_joins_and_leaves() {
    let mut lines = vec![
        line("[Behaviour] OnPlayerJoined Alice (usr_a1)"),
        line("[Behaviour] OnPlayerJoined Bob (usr_b2)"),
        line("[Behaviour] OnPlayerLeft Alice (usr_a1)"),
    ];
    let mut users = Vec::new();
    let mut formatted = Vec::new();
    assert!(lines_analyzable(&lines, 0));
    let (n, users_out, world, uploads, notices) =
        log_analyze(&mut lines, &0, &mut users, "".to_string(), &mut formatted);
    assert_eq!(n, 3);
    assert_eq!(users_out, strings(&["Bob "]));
    assert_eq!(users, strings(&["Bob "]));
    assert_eq!(world, "");
    assert!(uploads.is_empty());
    assert_eq!(
        formatted,
        strings(&[
            "2024/01/02 03:04:05 JOIN: [  1人] Alice ",
            "2024/01/02 03:04:05 JOIN: [  2人] Bob ",
            "2024/01/02 03:04:05 LEFT: [  1人] Alice ",
        ])
    );
    assert_eq!(notices.len(), 5);
    assert_eq!(logged(&notices[0]), Some("2024/01/02 03:04:05 JOIN: [  1人] Alice "));
    match &notices[3] {
        Notice::Overlay { title, content } => {
            assert_eq!(title, "JOIN [  1人]");
            assert_eq!(content, "Alice \nBob ");
        }
        _ => panic!("expected the join overlay"),
    }
    match &notices[4] {
        Notice::Overlay { title, content } => {
            assert_eq!(title, "LEFT [  1人]");
            assert_eq!(content, "Alice ");
        }
        _ => panic!("expected the leave overlay"),
    }
}

#[test]
fn analysis_skips_lines_already_seen() {
    let mut lines = vec![
        line("[Behaviour] OnPlayerJoined Alice (usr_a1)"),
        line("[Behaviour] Joining or Creating Room: Great Pug"),
    ];
    let mut users = strings(&["Alice "]);
    let mut formatted = strings(&["old"]);
    let (n, _, world, _, notices) =
        log_analyze(&mut lines, &1, &mut users, "Home".to_string(), &mut formatted);
    assert_eq!(n, 2);
    assert_eq!(lines, vec![line("[Behaviour] Joining or Creating Room: Great Pug")]);
    assert_eq!(users, strings(&["Alice "]));
    assert_eq!(world, "Great Pug");
    assert_eq!(formatted, strings(&["old", "2024/01/02 03:04:05 ROOM: Great Pug"]));
    assert_eq!(notices.len(), 1);
}

#[test]
fn analysis_of_urls_screenshots_and_notifications() {
    let url = line("[Video Playback] Attempting to resolve URL 'https://example.com/v.mp4'");
    let res = line("[Video Playback] Resolving URL 'https://example.com/w.mp4'");
    let cam = line("[VRC Camera] Took screenshot to: C:\\pics\\VRChat_2024-01-02_03-04-05.678_1920x1080.png");
    let note = line("Received Notification: <Notification from username:Bob, sender user id:usr_1 of type: invite>");
    let mut lines = vec![
        line("[Behaviour] Joining or Creating Room: Pug World"),
        line("[Behaviour] OnPlayerJoined Carol (usr_c)"),
        url.clone(),
        res.clone(),
        cam.clone(),
        note.clone(),
    ];
    let mut users = Vec::new();
    let mut formatted = Vec::new();
    let (_, _, world, uploads, notices) =
        log_analyze(&mut lines, &0, &mut users, "".to_string(), &mut formatted);
    assert_eq!(world, "Pug World");
    assert_eq!(uploads.len(), 1);
    assert_eq!(uploads[0].file_path, "C:\\pics\\VRChat_2024-01-02_03-04-05.678_1920x1080.png");
    assert_eq!(uploads[0].world_name, "Pug World");
    assert_eq!(uploads[0].users_name, strings(&["Carol "]));
    assert_eq!(formatted[2], format!("2024/01/02 03:04:05 URL : {}", &url[77..]));
    assert_eq!(formatted[3], format!("2024/01/02 03:04:05 URL : {}", &res[65..]));
    assert_eq!(formatted[4], format!("2024/01/02 03:04:05 CAM : {}", &cam[67..]));
    let overlays: Vec<(String, String)> = notices
        .iter()
        .filter_map(|n| match n {
            Notice::Overlay { title, content } => Some((title.clone(), content.clone())),
            _ => None,
        })
        .collect();
    assert_eq!(
        overlays,
        vec![
            ("URL".to_string(), url[77..].to_string()),
            ("URL".to_string(), res[66..].to_string()),
            ("JOIN [  1人]".to_string(), "Carol ".to_string()),
        ]
    );
    let invites: Vec<&String> = notices
        .iter()
        .filter_map(|n| match n {
            Notice::Invite(s) => Some(s),
            _ => None,
        })
        .collect();
    assert_eq!(invites, vec![&note]);
}

#[test]
fn analysis_of_nothing() {
    let mut lines = vec![line("nothing here")];
    let mut users = strings(&["Dan"]);
    let mut formatted = Vec::new();
    let (n, u, w, up, notices) =
        log_analyze(&mut lines, &0, &mut users, "W".to_string(), &mut formatted);
    assert_eq!((n, u, w, up.len(), notices.len()), (1, strings(&["Dan"]), "W".to_string(), 0, 0));
}

#[test]
fn line_fit_checks() {
    assert!(line_fits_check("anything without markers"));
    assert!(!line_fits_check("[Behaviour] OnPlayerJoined x"));
    assert!(line_fits_check(&line("[Behaviour] OnPlayerJoined x")));
    assert!(!lines_analyzable(&vec![line("a")], 2));
    assert!(lines_analyzable(&vec![line("a")], 1));
}

#[test]
fn thread_setting_from_config() {
    assert_eq!(threads_setting(&None), 4);
    assert_eq!(threads_setting(&Some("8".to_string())), 8);
    assert_eq!(threads_setting(&Some("1".to_string())), 1);
    assert_eq!(threads_setting(&Some("0".to_string())), 4);
    assert_eq!(threads_setting(&Some("-3".to_string())), 4);
    assert_eq!(threads_setting(&Some("many".to_string())), 4);
    assert_eq!(threads_setting(&Some(usize::MAX.to_string())), usize::MAX);
}

fn upload(name: &str) -> UploadData {
    UploadData { users_name: vec![], file_path: name.to_string(), world_name: "w".to_string() }
}

#[test]
fn uploads_start_in_order_while_threads_are_free() {
    let mut q: VecDeque<UploadData> = VecDeque::new();
    queue_uploads(&mut q, vec![upload("a"), upload("b")]);
    queue_uploads(&mut q, vec![upload("c")]);
    assert_eq!(q.len(), 3);
    assert!(next_upload(&mut q, 4, 4).is_none());
    assert_eq!(q.len(), 3);
    assert_eq!(next_upload(&mut q, 3, 4).unwrap().file_path, "a");
    assert_eq!(next_upload(&mut q, 0, 4).unwrap().file_path, "b");
    assert_eq!(next_upload(&mut q, 0, 4).unwrap().file_path, "c");
    assert!(next_upload(&mut q, 0, 4).is_none());
}

#[test]
fn analysing_in_rounds_equals_analysing_at_once() {
    let all = vec![
        line("[Behaviour] Joining or Creating Room: A"),
        line("[Behaviour] OnPlayerJoined P (usr_p)"),
        line("[VRC Camera] Took screenshot to: x.png"),
        line("[Behaviour] OnPlayerJoined Q (usr_q)"),
        line("[Behaviour] OnPlayerLeft P (usr_p)"),
        line("[Behaviour] Joining or Creating Room: B"),
    ];
    let mut users1 = Vec::new();
    let mut formatted1 = Vec::new();
    let (_, _, world1, up1, _) =
        log_analyze(&mut all.clone(), &0, &mut users1, "".to_string(), &mut formatted1);

    let mut users2 = Vec::new();
    let mut formatted2 = Vec::new();
    let mut first = all[..3].to_vec();
    let (n, _, w, mut up2, _) = log_analyze(&mut first, &0, &mut users2, "".to_string(), &mut formatted2);
    let (_, _, world2, up2b, _) =
        log_analyze(&mut all.clone(), &n, &mut users2, w, &mut formatted2);
    up2.extend(up2b);

    assert_eq!(users1, users2);
    assert_eq!(world1, world2);
    assert_eq!(world2, "B");
    assert_eq!(formatted1, formatted2);
    assert_eq!(up1.len(), up2.len());
    assert_eq!(up1[0].file_path, up2[0].file_path);
    assert_eq!(up1[0].world_name, "A");
}

#[test]
fn printed_lines_are_the_recorded_lines() {
    let mut lines = vec![
        line("[Behaviour] OnPlayerJoined P (usr_p)"),
        line("[Video Playback] Resolving URL 'https://e.x/a'"),
        line("Received Notification: username:Bob, sender user id:u type: invite"),
        line("[Behaviour] Joining or Creating Room: R"),
    ];
    let mut users = Vec::new();
    let mut formatted = strings(&["earlier"]);
    let (_, _, _, _, notices) =
        log_analyze(&mut lines, &0, &mut users, "".to_string(), &mut formatted);
    let printed: Vec<String> = notices.iter().filter_map(|n| logged(n).map(|s| s.to_string())).collect();
    let mut expected = strings(&["earlier"]);
    expected.extend(printed);
    assert_eq!(formatted, expected);
    assert_eq!(formatted.len(), 4);
}

#[test]
fn one_upload_per_screenshot_line() {
    let mut lines = vec![
        line("[VRC Camera] Took screenshot to: a.png"),
        line("[VRC Camera] Took screenshot to: b.png"),
        line("[Behaviour] Joining or Creating Room: R"),
        line("[VRC Camera] Took screenshot to: c.png"),
    ];
    let mut users = Vec::new();
    let mut formatted = Vec::new();
    let (_, _, _, uploads, _) =
        log_analyze(&mut lines, &0, &mut users, "S".to_string(), &mut formatted);
    let paths: Vec<&str> = uploads.iter().map(|u| u.file_path.as_str()).collect();
    assert_eq!(paths, vec!["a.png", "b.png", "c.png"]);
    let worlds: Vec<&str> = uploads.iter().map(|u| u.world_name.as_str()).collect();
    assert_eq!(worlds, vec!["S", "S", "R"]);
}
