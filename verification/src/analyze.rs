use vstd::prelude::*;
use std::collections::VecDeque;

use crate::function::{others, rm_id, user_push, user_remove, without_user_id};
use crate::text::{
    byte_boundary, byte_range, byte_suffix, clone_strings, lemma_boundary_zero, contains, count_field, has_substr,
    is_boundary, lemma_views_push, owned, parse_unsigned, parse_usize, push_char, push_count_field,
    seq_join, slice_from, slice_range, views,
};
use crate::xsoverlay::{join_head, left_head, overlay_for_users, overlay_title};

verus! {

// ---------------------------------------------------------------------
// What an analysis hands back
// ---------------------------------------------------------------------

/// A screenshot to upload, with the world and the users present when it was taken.
pub struct UploadData {
    pub users_name: Vec<String>,
    pub file_path: String,
    pub world_name: String,
}

/// The contents of an `UploadData`.
pub struct UploadView {
    pub users: Seq<Seq<char>>,
    pub file_path: Seq<char>,
    pub world: Seq<char>,
}

impl View for UploadData {
    type V = UploadView;

    open spec fn view(&self) -> UploadView {
        UploadView { users: views(self.users_name@), file_path: self.file_path@, world: self.world_name@ }
    }
}

/// Something the analysis asks its caller to do, in the order it arose.
pub enum Notice {
    /// Print a formatted log line (it is also added to the formatted lines).
    Logged(String),
    /// Show a notice in the XSOverlay.
    Overlay { title: String, content: String },
    /// Handle a notification line (an invite or a request to join).
    Invite(String),
    /// Print a message on the console.
    Console(String),
}

/// The contents of a `Notice`.
pub enum NoticeView {
    Logged(Seq<char>),
    Overlay(Seq<char>, Seq<char>),
    Invite(Seq<char>),
    Console(Seq<char>),
}

impl View for Notice {
    type V = NoticeView;

    open spec fn view(&self) -> NoticeView {
        match self {
            Notice::Logged(s) => NoticeView::Logged(s@),
            Notice::Overlay { title, content } => NoticeView::Overlay(title@, content@),
            Notice::Invite(s) => NoticeView::Invite(s@),
            Notice::Console(s) => NoticeView::Console(s@),
        }
    }
}

pub open spec fn upload_views(v: Seq<UploadData>) -> Seq<UploadView> {
    v.map_values(|u: UploadData| u@)
}

pub open spec fn notice_views(v: Seq<Notice>) -> Seq<NoticeView> {
    v.map_values(|n: Notice| n@)
}

// ---------------------------------------------------------------------
// Formatting a log line
// ---------------------------------------------------------------------

/// The date and time of a log line (`2024.01.02 03:04:05 ...`) can be cut out
/// at the byte offsets that `log_print` uses.
pub open spec fn stamp_cuttable(line: Seq<char>) -> bool {
    &&& byte_boundary(line, 4)
    &&& byte_boundary(line, 5)
    &&& byte_boundary(line, 7)
    &&& byte_boundary(line, 8)
    &&& byte_boundary(line, 10)
    &&& byte_boundary(line, 11)
    &&& byte_boundary(line, 19)
}

/// `YYYY/MM/DD hh:mm:ss content`, from the date and time at the start of `line`.
pub open spec fn log_print_text(line: Seq<char>, content: Seq<char>) -> Seq<char> {
    byte_range(line, 0, 4) + seq!['/'] + byte_range(line, 5, 7) + seq!['/'] + byte_range(line, 8, 10)
        + seq![' '] + byte_range(line, 11, 19) + seq![' '] + content
}

/// A log entry with the date and time of its log line in front.
pub fn log_print(log_line: String, log_content: String) -> (r: String)
    requires
        stamp_cuttable(log_line@),
    ensures
        r@ == log_print_text(log_line@, log_content@),
{
    let l = log_line.as_str();
    proof {
        lemma_boundary_zero(l@);
    }
    let mut r = owned(slice_range(l, 0, 4));
    push_char(&mut r, '/');
    r.append(slice_range(l, 5, 7));
    push_char(&mut r, '/');
    r.append(slice_range(l, 8, 10));
    push_char(&mut r, ' ');
    r.append(slice_range(l, 11, 19));
    push_char(&mut r, ' ');
    r.append(log_content.as_str());
    assert(r@ =~= log_print_text(log_line@, log_content@));
    r
}

// ---------------------------------------------------------------------
// The effect of one log line
// ---------------------------------------------------------------------

pub open spec fn join_mark() -> Seq<char> {
    "[Behaviour] OnPlayerJoined"@
}

pub open spec fn left_mark() -> Seq<char> {
    "[Behaviour] OnPlayerLeft "@
}

pub open spec fn url_mark() -> Seq<char> {
    "Attempting to resolve URL"@
}

pub open spec fn resolving_mark() -> Seq<char> {
    "Resolving URL"@
}

pub open spec fn camera_mark() -> Seq<char> {
    "[VRC Camera] Took screenshot to"@
}

pub open spec fn room_mark() -> Seq<char> {
    "Joining or Creating Room"@
}

pub open spec fn notification_mark() -> Seq<char> {
    "Received Notification"@
}

/// Where an analysis stands after some log lines.
#[verifier::ext_equal]
pub struct Progress {
    /// The users present.
    pub users: Seq<Seq<char>>,
    /// The current world.
    pub world: Seq<char>,
    /// All formatted log lines so far.
    pub formatted: Seq<Seq<char>>,
    /// The screenshots to upload.
    pub uploads: Seq<UploadView>,
    /// What the caller is asked to do.
    pub notices: Seq<NoticeView>,
    /// Who joined, in order.
    pub joined: Seq<Seq<char>>,
    /// Who left, in order.
    pub left: Seq<Seq<char>>,
}

/// Records a formatted log line.
pub open spec fn logged(p: Progress, text: Seq<char>) -> Progress {
    Progress {
        formatted: p.formatted.push(text),
        notices: p.notices.push(NoticeView::Logged(text)),
        ..p
    }
}

/// A user joins: the name after byte 61, without its id, is added to the users.
pub open spec fn join_step(p: Progress, line: Seq<char>) -> Progress {
    let name = without_user_id(byte_suffix(line, 61));
    let users = p.users.push(name);
    let text = log_print_text(line, "JOIN: ["@ + count_field(users.len()) + "人] "@ + name);
    logged(Progress { users: users, joined: p.joined.push(name), ..p }, text)
}

/// A user leaves: the name after byte 59, without its id, leaves the users.
pub open spec fn left_step(p: Progress, line: Seq<char>) -> Progress {
    let name = without_user_id(byte_suffix(line, 59));
    let users = others(p.users, name);
    let text = log_print_text(line, "LEFT: ["@ + count_field(users.len()) + "人] "@ + name);
    logged(Progress { users: users, left: p.left.push(name), ..p }, text)
}

/// A URL is about to be played: it follows byte 77.
pub open spec fn url_step(p: Progress, line: Seq<char>) -> Progress {
    let url = byte_suffix(line, 77);
    let q = logged(p, log_print_text(line, "URL : "@ + url));
    Progress { notices: q.notices.push(NoticeView::Overlay("URL"@, url)), ..q }
}

/// A URL is being resolved: logged from byte 65, shown from byte 66.
pub open spec fn resolving_step(p: Progress, line: Seq<char>) -> Progress {
    let q = logged(p, log_print_text(line, "URL : "@ + byte_suffix(line, 65)));
    Progress { notices: q.notices.push(NoticeView::Overlay("URL"@, byte_suffix(line, 66))), ..q }
}

/// A screenshot was taken: its path follows byte 67.
pub open spec fn camera_step(p: Progress, line: Seq<char>) -> Progress {
    let path = byte_suffix(line, 67);
    let q = logged(p, log_print_text(line, "CAM : "@ + path));
    Progress {
        uploads: q.uploads.push(UploadView { users: p.users, file_path: path, world: p.world }),
        ..q
    }
}

/// The user enters a world: its name follows byte 72.
pub open spec fn room_step(p: Progress, line: Seq<char>) -> Progress {
    let world = byte_suffix(line, 72);
    logged(Progress { world: world, ..p }, log_print_text(line, "ROOM: "@ + world))
}

/// A notification arrived: the whole line goes to the invite handling.
pub open spec fn notification_step(p: Progress, line: Seq<char>) -> Progress {
    Progress { notices: p.notices.push(NoticeView::Invite(line)), ..p }
}

/// The effect of one log line: each kind of entry it mentions, in this order.
pub open spec fn step(p: Progress, line: Seq<char>) -> Progress {
    let p1 = if has_substr(line, join_mark()) { join_step(p, line) } else { p };
    let p2 = if has_substr(line, left_mark()) { left_step(p1, line) } else { p1 };
    let p3 = if has_substr(line, url_mark()) { url_step(p2, line) } else { p2 };
    let p4 = if has_substr(line, resolving_mark()) { resolving_step(p3, line) } else { p3 };
    let p5 = if has_substr(line, camera_mark()) { camera_step(p4, line) } else { p4 };
    let p6 = if has_substr(line, room_mark()) { room_step(p5, line) } else { p5 };
    if has_substr(line, notification_mark()) { notification_step(p6, line) } else { p6 }
}

/// The effect of a run of log lines, one after the other.
pub open spec fn analyze_lines(p: Progress, lines: Seq<Seq<char>>) -> Progress
    decreases lines.len(),
{
    if lines.len() == 0 {
        p
    } else {
        step(analyze_lines(p, lines.drop_last()), lines.last())
    }
}

/// The byte offsets that the handling of `line` cuts at are character
/// boundaries of it (where they are not, the cut panics).
pub open spec fn line_fits(line: Seq<char>) -> bool {
    &&& has_substr(line, join_mark()) ==> stamp_cuttable(line) && byte_boundary(line, 61)
    &&& has_substr(line, left_mark()) ==> stamp_cuttable(line) && byte_boundary(line, 59)
    &&& has_substr(line, url_mark()) ==> stamp_cuttable(line) && byte_boundary(line, 77)
    &&& has_substr(line, resolving_mark()) ==> stamp_cuttable(line) && byte_boundary(line, 65)
        && byte_boundary(line, 66)
    &&& has_substr(line, camera_mark()) ==> stamp_cuttable(line) && byte_boundary(line, 67)
    &&& has_substr(line, room_mark()) ==> stamp_cuttable(line) && byte_boundary(line, 72)
}

/// Every line of `lines` fits.
pub open spec fn lines_fit(lines: Seq<Seq<char>>) -> bool {
    forall|i: int| 0 <= i < lines.len() ==> line_fits(#[trigger] lines[i])
}

/// The notices that close an analysis for the users who joined (`head` is
/// `JOIN [`) or left (`LEFT [`): nothing for nobody, else one overlay
/// notice with the names one per line and the number of users present.
pub open spec fn summary(head: Seq<char>, names: Seq<Seq<char>>, count: nat, error: Seq<char>) -> Seq<
    NoticeView,
> {
    if names.len() == 0 {
        seq![]
    } else if names.len() > i32::MAX {
        seq![NoticeView::Console(error)]
    } else {
        seq![NoticeView::Overlay(overlay_title(head, count), seq_join(names, "\n"@))]
    }
}

pub open spec fn join_error() -> Seq<char> {
    "Error : 不明なエラーが発生しました。変数join_dataに異常が発生しています。"@
}

pub open spec fn left_error() -> Seq<char> {
    "Error : 不明なエラーが発生しました。変数left_dataに異常が発生しています。"@
}

/// All notices of an analysis that reached `p`.
pub open spec fn final_notices(p: Progress) -> Seq<NoticeView> {
    p.notices + summary(join_head(), p.joined, p.users.len(), join_error()) + summary(
        left_head(),
        p.left,
        p.users.len(),
        left_error(),
    )
}

// ---------------------------------------------------------------------
// The analysis, line by line
// ---------------------------------------------------------------------

/// The state of an analysis in progress.
struct Analysis {
    users_name: Vec<String>,
    world_name: String,
    formatted: Vec<String>,
    uploads: Vec<UploadData>,
    notices: Vec<Notice>,
    joined: Vec<String>,
    left: Vec<String>,
}

impl View for Analysis {
    type V = Progress;

    closed spec fn view(&self) -> Progress {
        Progress {
            users: views(self.users_name@),
            world: self.world_name@,
            formatted: views(self.formatted@),
            uploads: upload_views(self.uploads@),
            notices: notice_views(self.notices@),
            joined: views(self.joined@),
            left: views(self.left@),
        }
    }
}

impl Analysis {
    /// Prints and records a formatted log line.
    fn log(&mut self, text: String)
        ensures
            final(self)@ == logged(old(self)@, text@),
    {
        let copy = text.clone();
        proof {
            lemma_views_push(self.formatted@, text);
            assert(notice_views(self.notices@.push(Notice::Logged(copy))) =~= notice_views(
                self.notices@,
            ).push(NoticeView::Logged(text@)));
        }
        self.formatted.push(text);
        self.notices.push(Notice::Logged(copy));
        assert(self@ =~= logged(old(self)@, text@));
    }

    fn notify(&mut self, n: Notice)
        ensures
            final(self)@ == (Progress { notices: old(self)@.notices.push(n@), ..old(self)@ }),
    {
        proof {
            assert(notice_views(self.notices@.push(n)) =~= notice_views(self.notices@).push(n@));
        }
        self.notices.push(n);
        assert(self@ =~= (Progress { notices: old(self)@.notices.push(n@), ..old(self)@ }));
    }

    fn on_join(&mut self, line: &str)
        requires
            stamp_cuttable(line@),
            byte_boundary(line@, 61),
        ensures
            final(self)@ == join_step(old(self)@, line@),
    {
        let who = slice_from(line, 61);
        user_push(&mut self.users_name, who);
        let name = rm_id(owned(who));
        let mut content = String::new();
        content.append("JOIN: [");
        push_count_field(&mut content, self.users_name.len());
        content.append("人] ");
        content.append(name.as_str());
        let text = log_print(owned(line), content);
        proof {
            lemma_views_push(self.joined@, name);
        }
        self.joined.push(name);
        self.log(text);
        assert(self@ =~= join_step(old(self)@, line@));
    }

    fn on_left(&mut self, line: &str)
        requires
            stamp_cuttable(line@),
            byte_boundary(line@, 59),
        ensures
            final(self)@ == left_step(old(self)@, line@),
    {
        let who = slice_from(line, 59);
        user_remove(&mut self.users_name, who);
        let name = rm_id(owned(who));
        let mut content = String::new();
        content.append("LEFT: [");
        push_count_field(&mut content, self.users_name.len());
        content.append("人] ");
        content.append(name.as_str());
        let text = log_print(owned(line), content);
        proof {
            lemma_views_push(self.left@, name);
        }
        self.left.push(name);
        self.log(text);
        assert(self@ =~= left_step(old(self)@, line@));
    }

    fn on_url(&mut self, line: &str)
        requires
            stamp_cuttable(line@),
            byte_boundary(line@, 77),
        ensures
            final(self)@ == url_step(old(self)@, line@),
    {
        let url = slice_from(line, 77);
        let mut content = String::new();
        content.append("URL : ");
        content.append(url);
        let text = log_print(owned(line), content);
        self.log(text);
        self.notify(Notice::Overlay { title: owned("URL"), content: owned(url) });
        assert(self@ =~= url_step(old(self)@, line@));
    }

    fn on_resolving(&mut self, line: &str)
        requires
            stamp_cuttable(line@),
            byte_boundary(line@, 65),
            byte_boundary(line@, 66),
        ensures
            final(self)@ == resolving_step(old(self)@, line@),
    {
        let mut content = String::new();
        content.append("URL : ");
        content.append(slice_from(line, 65));
        let text = log_print(owned(line), content);
        self.log(text);
        self.notify(Notice::Overlay { title: owned("URL"), content: owned(slice_from(line, 66)) });
        assert(self@ =~= resolving_step(old(self)@, line@));
    }

    fn on_camera(&mut self, line: &str)
        requires
            stamp_cuttable(line@),
            byte_boundary(line@, 67),
        ensures
            final(self)@ == camera_step(old(self)@, line@),
    {
        let path = slice_from(line, 67);
        let mut content = String::new();
        content.append("CAM : ");
        content.append(path);
        let text = log_print(owned(line), content);
        self.log(text);
        let upload = UploadData {
            users_name: clone_strings(&self.users_name),
            file_path: owned(path),
            world_name: self.world_name.clone(),
        };
        proof {
            assert(upload_views(self.uploads@.push(upload)) =~= upload_views(self.uploads@).push(
                upload@,
            ));
        }
        self.uploads.push(upload);
        assert(self@ =~= camera_step(old(self)@, line@));
    }

    fn on_room(&mut self, line: &str)
        requires
            stamp_cuttable(line@),
            byte_boundary(line@, 72),
        ensures
            final(self)@ == room_step(old(self)@, line@),
    {
        let world = slice_from(line, 72);
        self.world_name = owned(world);
        let mut content = String::new();
        content.append("ROOM: ");
        content.append(world);
        let text = log_print(owned(line), content);
        self.log(text);
        assert(self@ =~= room_step(old(self)@, line@));
    }

    /// The effect of one log line.
    fn on_line(&mut self, line: &str)
        requires
            line_fits(line@),
        ensures
            final(self)@ == step(old(self)@, line@),
    {
        if contains(line, "[Behaviour] OnPlayerJoined") {
            self.on_join(line);
        }
        if contains(line, "[Behaviour] OnPlayerLeft ") {
            self.on_left(line);
        }
        if contains(line, "Attempting to resolve URL") {
            self.on_url(line);
        }
        if contains(line, "Resolving URL") {
            self.on_resolving(line);
        }
        if contains(line, "[VRC Camera] Took screenshot to") {
            self.on_camera(line);
        }
        if contains(line, "Joining or Creating Room") {
            self.on_room(line);
        }
        if contains(line, "Received Notification") {
            self.notify(Notice::Invite(owned(line)));
        }
    }

    /// The closing notice for who joined or left.
    fn summarize(&mut self, joined: bool)
        ensures
            final(self)@ == (Progress {
                notices: old(self)@.notices + if joined {
                    summary(join_head(), old(self)@.joined, old(self)@.users.len(), join_error())
                } else {
                    summary(left_head(), old(self)@.left, old(self)@.users.len(), left_error())
                },
                ..old(self)@
            }),
    {
        let names = if joined { clone_strings(&self.joined) } else { clone_strings(&self.left) };
        let count = self.users_name.len();
        let ghost head = if joined { join_head() } else { left_head() };
        let ghost err = if joined { join_error() } else { left_error() };
        let ghost s = summary(head, views(names@), count as nat, err);
        if names.len() == 0 {
            assert(s =~= seq![]);
            assert(old(self)@.notices + s =~= old(self)@.notices);
        } else if names.len() > 2147483647 {
            let msg = if joined {
                owned("Error : 不明なエラーが発生しました。変数join_dataに異常が発生しています。")
            } else {
                owned("Error : 不明なエラーが発生しました。変数left_dataに異常が発生しています。")
            };
            self.notify(Notice::Console(msg));
            assert(old(self)@.notices + s =~= old(self)@.notices.push(NoticeView::Console(err)));
        } else {
            let kind: i32 = if joined { 1 } else { 2 };
            match overlay_for_users(kind, &names, count) {
                Some((title, content)) => {
                    self.notify(Notice::Overlay { title, content });
                    assert(old(self)@.notices + s =~= old(self)@.notices.push(
                        NoticeView::Overlay(overlay_title(head, count as nat), seq_join(views(names@), "\n"@)),
                    ));
                },
                None => {
                    assert(false);
                },
            }
        }
    }
}

/// Analyses the lines of the log that were not seen before: `log_lines` is
/// the whole log, `number_of_lines` how many of its lines were analysed
/// already. Users who join and leave update `users_name`, the world that is
/// entered replaces `world_name`, every entry found is formatted and added to
/// `log_formated_lines`, and screenshots become uploads. Returns the number of
/// lines of the log, the users present, the current world, the uploads, and
/// what the caller is asked to do (print, notify, handle invites), in order.
pub fn log_analyze(
    log_lines: &mut Vec<String>,
    number_of_lines: &usize,
    users_name: &mut Vec<String>,
    world_name: String,
    log_formated_lines: &mut Vec<String>,
) -> (r: (usize, Vec<String>, String, Vec<UploadData>, Vec<Notice>))
    requires
        *number_of_lines <= old(log_lines).len(),
        lines_fit(views(old(log_lines)@).skip(*number_of_lines as int)),
    ensures
        ({
            let start = Progress {
                users: views(old(users_name)@),
                world: world_name@,
                formatted: views(old(log_formated_lines)@),
                uploads: seq![],
                notices: seq![],
                joined: seq![],
                left: seq![],
            };
            let p = analyze_lines(start, views(old(log_lines)@).skip(*number_of_lines as int));
            &&& r.0 == old(log_lines).len()
            &&& views(r.1@) == p.users
            &&& views(final(users_name)@) == p.users
            &&& r.2@ == p.world
            &&& upload_views(r.3@) == p.uploads
            &&& notice_views(r.4@) == final_notices(p)
            &&& views(final(log_formated_lines)@) == p.formatted
            &&& views(final(log_lines)@) == views(old(log_lines)@).skip(*number_of_lines as int)
        }),
{
    let log_length = log_lines.len();
    let mut rest = log_lines.split_off(*number_of_lines);
    std::mem::swap(log_lines, &mut rest);
    assert(views(log_lines@) =~= views(old(log_lines)@).skip(*number_of_lines as int));
    let ghost lines = views(log_lines@);
    let mut st = Analysis {
        users_name: Vec::new(),
        world_name: world_name,
        formatted: Vec::new(),
        uploads: Vec::new(),
        notices: Vec::new(),
        joined: Vec::new(),
        left: Vec::new(),
    };
    std::mem::swap(&mut st.users_name, users_name);
    std::mem::swap(&mut st.formatted, log_formated_lines);
    let ghost start = st@;
    assert(start.uploads =~= seq![]);
    assert(start.notices =~= seq![]);
    assert(start.joined =~= seq![]);
    assert(start.left =~= seq![]);
    let n = log_lines.len();
    let mut i: usize = 0;
    while i < n
        invariant
            n == log_lines.len(),
            lines == views(log_lines@),
            lines_fit(lines),
            i <= n,
            st@ == analyze_lines(start, lines.take(i as int)),
        decreases n - i,
    {
        assert(lines.take(i + 1).drop_last() =~= lines.take(i as int));
        assert(lines[i as int] == log_lines@[i as int]@);
        st.on_line(log_lines[i].as_str());
        i = i + 1;
    }
    assert(lines.take(n as int) =~= lines);
    let ghost p = st@;
    st.summarize(true);
    st.summarize(false);
    assert(notice_views(st.notices@) =~= final_notices(p));
    let users = clone_strings(&st.users_name);
    std::mem::swap(&mut st.users_name, users_name);
    std::mem::swap(&mut st.formatted, log_formated_lines);
    (log_length, users, st.world_name, st.uploads, st.notices)
}

} // verus!

verus! {

// ---------------------------------------------------------------------
// Checks a caller makes before an analysis
// ---------------------------------------------------------------------

/// Whether the date and time of a log line can be cut out.
pub fn stamp_cuttable_check(line: &str) -> (r: bool)
    ensures
        r == stamp_cuttable(line@),
{
    is_boundary(line, 4) && is_boundary(line, 5) && is_boundary(line, 7) && is_boundary(line, 8)
        && is_boundary(line, 10) && is_boundary(line, 11) && is_boundary(line, 19)
}

/// Whether every cut that the handling of `line` makes falls on a character boundary.
pub fn line_fits_check(line: &str) -> (r: bool)
    ensures
        r == line_fits(line@),
{
    let stamp = stamp_cuttable_check(line);
    (!contains(line, "[Behaviour] OnPlayerJoined") || (stamp && is_boundary(line, 61))) && (
    !contains(line, "[Behaviour] OnPlayerLeft ") || (stamp && is_boundary(line, 59))) && (
    !contains(line, "Attempting to resolve URL") || (stamp && is_boundary(line, 77))) && (
    !contains(line, "Resolving URL") || (stamp && is_boundary(line, 65) && is_boundary(line, 66)))
        && (!contains(line, "[VRC Camera] Took screenshot to") || (stamp && is_boundary(line, 67)))
        && (!contains(line, "Joining or Creating Room") || (stamp && is_boundary(line, 72)))
}

/// Whether `log_analyze` can take this log: no more lines are counted as
/// seen than the log has, and every unseen line fits.
pub fn lines_analyzable(log_lines: &Vec<String>, number_of_lines: usize) -> (r: bool)
    ensures
        r == (number_of_lines <= log_lines.len() && lines_fit(
            views(log_lines@).skip(number_of_lines as int),
        )),
{
    let n = log_lines.len();
    if number_of_lines > n {
        return false;
    }
    let ghost rest = views(log_lines@).skip(number_of_lines as int);
    let mut i: usize = number_of_lines;
    while i < n
        invariant
            n == log_lines.len(),
            number_of_lines <= i <= n,
            rest == views(log_lines@).skip(number_of_lines as int),
            forall|k: int| 0 <= k < i - number_of_lines ==> line_fits(#[trigger] rest[k]),
        decreases n - i,
    {
        assert(rest[i - number_of_lines] == log_lines@[i as int]@);
        if !line_fits_check(log_lines[i].as_str()) {
            return false;
        }
        i = i + 1;
    }
    true
}

// ---------------------------------------------------------------------
// Settings and the upload queue of the main loop
// ---------------------------------------------------------------------

/// How many screenshot uploads may run at once, from the
/// `max_convertpic_threads` setting: its number where it reads as a `usize`
/// of 1 or more, else 4.
pub fn threads_setting(setting: &Option<String>) -> (r: usize)
    ensures
        r == match setting {
            Some(v) => match parse_unsigned(v@, usize::MAX as int) {
                Some(x) => if x >= 1 { x as usize } else { 4 },
                None => 4,
            },
            None => 4,
        },
{
    match setting {
        Some(v) => match parse_usize(v.as_str()) {
            Some(x) => {
                if x >= 1 {
                    x
                } else {
                    4
                }
            },
            None => 4,
        },
        None => 4,
    }
}

/// Adds the screenshots of an analysis to the end of the upload queue, in order.
pub fn queue_uploads(upload_queue: &mut VecDeque<UploadData>, upload_datas: Vec<UploadData>)
    ensures
        final(upload_queue)@ == old(upload_queue)@ + upload_datas@,
{
    let ghost start = upload_queue@;
    let ghost all = upload_datas@;
    assert(all.len() == upload_datas.len());
    let mut rest = upload_datas;
    let mut k: usize = 0;
    while rest.len() > 0
        invariant
            k <= all.len(),
            all.len() <= usize::MAX,
            rest@ == all.skip(k as int),
            upload_queue@ == start + all.take(k as int),
        decreases rest.len(),
    {
        let u = rest.remove(0);
        upload_queue.push_back(u);
        assert(all.take(k + 1) =~= all.take(k as int).push(u));
        assert(rest@ =~= all.skip(k + 1));
        k = k + 1;
    }
    assert(all.take(k as int) =~= all);
}

/// The upload to start now, taken from the front of the queue: one is
/// started while fewer than `max_threads` uploads are running.
pub fn next_upload(upload_queue: &mut VecDeque<UploadData>, running: usize, max_threads: usize) -> (r:
    Option<UploadData>)
    ensures
        running < max_threads && old(upload_queue)@.len() > 0 ==> (r == Some(old(upload_queue)@[0])
            && final(upload_queue)@ == old(upload_queue)@.drop_first()),
        !(running < max_threads && old(upload_queue)@.len() > 0) ==> (r is None && final(upload_queue)@
            == old(upload_queue)@),
{
    if running < max_threads {
        upload_queue.pop_front()
    } else {
        None
    }
}

} // verus!

verus! {

// ---------------------------------------------------------------------
// Laws of the analysis
// ---------------------------------------------------------------------

/// The state a new round of analysis starts from: the users, the world and
/// the formatted lines carry over; uploads, notices and who joined or left
/// start empty.
pub open spec fn fresh(p: Progress) -> Progress {
    Progress { uploads: seq![], notices: seq![], joined: seq![], left: seq![], ..p }
}

/// The progress `r` of a later round, with the outputs of the earlier
/// progress `base` in front of its own.
pub open spec fn extend(base: Progress, r: Progress) -> Progress {
    Progress {
        uploads: base.uploads + r.uploads,
        notices: base.notices + r.notices,
        joined: base.joined + r.joined,
        left: base.left + r.left,
        ..r
    }
}

/// Analysing `a` and then `b` is analysing `a + b`.
pub proof fn lemma_analyze_concat(p: Progress, a: Seq<Seq<char>>, b: Seq<Seq<char>>)
    ensures
        analyze_lines(p, a + b) == analyze_lines(analyze_lines(p, a), b),
    decreases b.len(),
{
    if b.len() == 0 {
        assert(a + b =~= a);
    } else {
        lemma_analyze_concat(p, a, b.drop_last());
        assert((a + b).drop_last() =~= a + b.drop_last());
        assert((a + b).last() == b.last());
    }
}

proof fn lemma_logged_extend(base: Progress, q: Progress, text: Seq<char>)
    ensures
        logged(extend(base, q), text) == extend(base, logged(q, text)),
{
    assert((base.notices + q.notices).push(NoticeView::Logged(text)) =~= base.notices + q.notices.push(
        NoticeView::Logged(text),
    ));
    assert(logged(extend(base, q), text) =~= extend(base, logged(q, text)));
}

proof fn lemma_notify_extend(base: Progress, q: Progress, n: NoticeView)
    ensures
        (Progress { notices: extend(base, q).notices.push(n), ..extend(base, q) }) == extend(
            base,
            Progress { notices: q.notices.push(n), ..q },
        ),
{
    assert((base.notices + q.notices).push(n) =~= base.notices + q.notices.push(n));
    assert((Progress { notices: extend(base, q).notices.push(n), ..extend(base, q) }) =~= extend(
        base,
        Progress { notices: q.notices.push(n), ..q },
    ));
}

/// One line has the same effect on a progress with earlier outputs in front.
proof fn lemma_step_extend(base: Progress, q: Progress, line: Seq<char>)
    ensures
        step(extend(base, q), line) == extend(base, step(q, line)),
{
    let e = extend(base, q);
    // users join
    let q1 = if has_substr(line, join_mark()) { join_step(q, line) } else { q };
    let e1 = if has_substr(line, join_mark()) { join_step(e, line) } else { e };
    if has_substr(line, join_mark()) {
        let name = without_user_id(byte_suffix(line, 61));
        let text = log_print_text(line, "JOIN: ["@ + count_field(q.users.push(name).len()) + "人] "@ + name);
        let qa = Progress { users: q.users.push(name), joined: q.joined.push(name), ..q };
        assert((base.joined + q.joined).push(name) =~= base.joined + q.joined.push(name));
        assert((Progress { users: e.users.push(name), joined: e.joined.push(name), ..e }) =~= extend(base, qa));
        lemma_logged_extend(base, qa, text);
    }
    assert(e1 == extend(base, q1));
    // users leave
    let q2 = if has_substr(line, left_mark()) { left_step(q1, line) } else { q1 };
    let e2 = if has_substr(line, left_mark()) { left_step(e1, line) } else { e1 };
    if has_substr(line, left_mark()) {
        let name = without_user_id(byte_suffix(line, 59));
        let users = others(q1.users, name);
        let text = log_print_text(line, "LEFT: ["@ + count_field(users.len()) + "人] "@ + name);
        let qa = Progress { users: users, left: q1.left.push(name), ..q1 };
        assert((base.left + q1.left).push(name) =~= base.left + q1.left.push(name));
        assert((Progress { users: users, left: e1.left.push(name), ..e1 }) =~= extend(base, qa));
        lemma_logged_extend(base, qa, text);
    }
    assert(e2 == extend(base, q2));
    // URLs
    let q3 = if has_substr(line, url_mark()) { url_step(q2, line) } else { q2 };
    let e3 = if has_substr(line, url_mark()) { url_step(e2, line) } else { e2 };
    if has_substr(line, url_mark()) {
        let url = byte_suffix(line, 77);
        let text = log_print_text(line, "URL : "@ + url);
        lemma_logged_extend(base, q2, text);
        lemma_notify_extend(base, logged(q2, text), NoticeView::Overlay("URL"@, url));
    }
    assert(e3 == extend(base, q3));
    let q4 = if has_substr(line, resolving_mark()) { resolving_step(q3, line) } else { q3 };
    let e4 = if has_substr(line, resolving_mark()) { resolving_step(e3, line) } else { e3 };
    if has_substr(line, resolving_mark()) {
        let text = log_print_text(line, "URL : "@ + byte_suffix(line, 65));
        lemma_logged_extend(base, q3, text);
        lemma_notify_extend(base, logged(q3, text), NoticeView::Overlay("URL"@, byte_suffix(line, 66)));
    }
    assert(e4 == extend(base, q4));
    // screenshots
    let q5 = if has_substr(line, camera_mark()) { camera_step(q4, line) } else { q4 };
    let e5 = if has_substr(line, camera_mark()) { camera_step(e4, line) } else { e4 };
    if has_substr(line, camera_mark()) {
        let path = byte_suffix(line, 67);
        let text = log_print_text(line, "CAM : "@ + path);
        let u = UploadView { users: q4.users, file_path: path, world: q4.world };
        lemma_logged_extend(base, q4, text);
        let l = logged(q4, text);
        assert((base.uploads + l.uploads).push(u) =~= base.uploads + l.uploads.push(u));
        assert(e5 =~= extend(base, q5));
    }
    assert(e5 == extend(base, q5));
    // rooms
    let q6 = if has_substr(line, room_mark()) { room_step(q5, line) } else { q5 };
    let e6 = if has_substr(line, room_mark()) { room_step(e5, line) } else { e5 };
    if has_substr(line, room_mark()) {
        let world = byte_suffix(line, 72);
        let text = log_print_text(line, "ROOM: "@ + world);
        assert((Progress { world: world, ..e5 }) =~= extend(base, Progress { world: world, ..q5 }));
        lemma_logged_extend(base, Progress { world: world, ..q5 }, text);
    }
    assert(e6 == extend(base, q6));
    if has_substr(line, notification_mark()) {
        lemma_notify_extend(base, q6, NoticeView::Invite(line));
    }
}

proof fn lemma_analyze_extend(base: Progress, q: Progress, lines: Seq<Seq<char>>)
    ensures
        analyze_lines(extend(base, q), lines) == extend(base, analyze_lines(q, lines)),
    decreases lines.len(),
{
    if lines.len() > 0 {
        lemma_analyze_extend(base, q, lines.drop_last());
        lemma_step_extend(base, analyze_lines(q, lines.drop_last()), lines.last());
    }
}

/// Analysing a log in rounds, each round taking only the lines that came
/// after the previous one and starting from its users, world and formatted
/// lines, comes to the same as analysing all the lines at once: the same
/// users, world and formatted lines, and the outputs of the rounds one after
/// the other.
pub proof fn lemma_rounds(p: Progress, a: Seq<Seq<char>>, b: Seq<Seq<char>>)
    ensures
        analyze_lines(p, a + b) == extend(
            analyze_lines(p, a),
            analyze_lines(fresh(analyze_lines(p, a)), b),
        ),
{
    let first = analyze_lines(p, a);
    lemma_analyze_concat(p, a, b);
    assert(extend(first, fresh(first)) =~= first);
    lemma_analyze_extend(first, fresh(first), b);
}

/// The world after some log lines: that of the last line that enters a
/// world, or `world` where no line does.
pub open spec fn world_after(lines: Seq<Seq<char>>, world: Seq<char>) -> Seq<char>
    decreases lines.len(),
{
    if lines.len() == 0 {
        world
    } else if has_substr(lines.last(), room_mark()) {
        byte_suffix(lines.last(), 72)
    } else {
        world_after(lines.drop_last(), world)
    }
}

/// The world an analysis ends in is the one the last room line names.
pub proof fn lemma_world(p: Progress, lines: Seq<Seq<char>>)
    ensures
        analyze_lines(p, lines).world == world_after(lines, p.world),
    decreases lines.len(),
{
    if lines.len() > 0 {
        lemma_world(p, lines.drop_last());
    }
}

} // verus!

verus! {

/// The texts of the `Logged` notices among `ns`, in order.
pub open spec fn logged_texts(ns: Seq<NoticeView>) -> Seq<Seq<char>>
    decreases ns.len(),
{
    if ns.len() == 0 {
        seq![]
    } else {
        let r = logged_texts(ns.drop_last());
        match ns.last() {
            NoticeView::Logged(t) => r.push(t),
            _ => r,
        }
    }
}

/// The formatted lines so far are `base` and then the printed ones.
pub open spec fn records_prints(p: Progress, base: Seq<Seq<char>>) -> bool {
    p.formatted == base + logged_texts(p.notices)
}

proof fn lemma_logged_texts_push(ns: Seq<NoticeView>, n: NoticeView)
    ensures
        logged_texts(ns.push(n)) == match n {
            NoticeView::Logged(t) => logged_texts(ns).push(t),
            _ => logged_texts(ns),
        },
{
    assert(ns.push(n).drop_last() =~= ns);
}

proof fn lemma_logged_records(p: Progress, base: Seq<Seq<char>>, text: Seq<char>)
    requires
        records_prints(p, base),
    ensures
        records_prints(logged(p, text), base),
{
    lemma_logged_texts_push(p.notices, NoticeView::Logged(text));
    assert(base + logged_texts(p.notices).push(text) =~= (base + logged_texts(p.notices)).push(text));
}

proof fn lemma_step_records(p: Progress, base: Seq<Seq<char>>, line: Seq<char>)
    requires
        records_prints(p, base),
    ensures
        records_prints(step(p, line), base),
{
    let p1 = if has_substr(line, join_mark()) { join_step(p, line) } else { p };
    if has_substr(line, join_mark()) {
        let name = without_user_id(byte_suffix(line, 61));
        let q = Progress { users: p.users.push(name), joined: p.joined.push(name), ..p };
        lemma_logged_records(q, base, log_print_text(line, "JOIN: ["@ + count_field(q.users.len()) + "人] "@ + name));
    }
    let p2 = if has_substr(line, left_mark()) { left_step(p1, line) } else { p1 };
    if has_substr(line, left_mark()) {
        let name = without_user_id(byte_suffix(line, 59));
        let q = Progress { users: others(p1.users, name), left: p1.left.push(name), ..p1 };
        lemma_logged_records(q, base, log_print_text(line, "LEFT: ["@ + count_field(q.users.len()) + "人] "@ + name));
    }
    let p3 = if has_substr(line, url_mark()) { url_step(p2, line) } else { p2 };
    if has_substr(line, url_mark()) {
        let text = log_print_text(line, "URL : "@ + byte_suffix(line, 77));
        lemma_logged_records(p2, base, text);
        lemma_logged_texts_push(logged(p2, text).notices, NoticeView::Overlay("URL"@, byte_suffix(line, 77)));
    }
    let p4 = if has_substr(line, resolving_mark()) { resolving_step(p3, line) } else { p3 };
    if has_substr(line, resolving_mark()) {
        let text = log_print_text(line, "URL : "@ + byte_suffix(line, 65));
        lemma_logged_records(p3, base, text);
        lemma_logged_texts_push(logged(p3, text).notices, NoticeView::Overlay("URL"@, byte_suffix(line, 66)));
    }
    let p5 = if has_substr(line, camera_mark()) { camera_step(p4, line) } else { p4 };
    if has_substr(line, camera_mark()) {
        lemma_logged_records(p4, base, log_print_text(line, "CAM : "@ + byte_suffix(line, 67)));
    }
    let p6 = if has_substr(line, room_mark()) { room_step(p5, line) } else { p5 };
    if has_substr(line, room_mark()) {
        let world = byte_suffix(line, 72);
        lemma_logged_records(Progress { world: world, ..p5 }, base, log_print_text(line, "ROOM: "@ + world));
    }
    if has_substr(line, notification_mark()) {
        lemma_logged_texts_push(p6.notices, NoticeView::Invite(line));
    }
}

/// What an analysis prints as formatted log lines is what it records: the
/// formatted lines after it are those before it and then, in order, the
/// texts of its `Logged` notices.
pub proof fn lemma_prints_are_recorded(p: Progress, lines: Seq<Seq<char>>)
    requires
        p.notices == Seq::<NoticeView>::empty(),
    ensures
        analyze_lines(p, lines).formatted == p.formatted + logged_texts(analyze_lines(p, lines).notices),
    decreases lines.len(),
{
    if lines.len() == 0 {
        assert(p.formatted + logged_texts(p.notices) =~= p.formatted);
    } else {
        lemma_prints_are_recorded(p, lines.drop_last());
        lemma_step_records(analyze_lines(p, lines.drop_last()), p.formatted, lines.last());
    }
}

/// How many of `lines` report a screenshot.
pub open spec fn camera_lines(lines: Seq<Seq<char>>) -> nat
    decreases lines.len(),
{
    if lines.len() == 0 {
        0
    } else {
        camera_lines(lines.drop_last()) + if has_substr(lines.last(), camera_mark()) { 1nat } else { 0nat }
    }
}

/// Every screenshot line makes exactly one upload.
pub proof fn lemma_one_upload_per_screenshot(p: Progress, lines: Seq<Seq<char>>)
    ensures
        analyze_lines(p, lines).uploads.len() == p.uploads.len() + camera_lines(lines),
    decreases lines.len(),
{
    if lines.len() > 0 {
        lemma_one_upload_per_screenshot(p, lines.drop_last());
    }
}

} // verus!

verus! {

/// A line that does not hold `[Behaviour] OnPlayerLeft ` (trailing space
/// included), such as one with `[Behaviour] OnPlayerLeftRoom`, records nobody
/// as having left.
pub proof fn lemma_leave_needs_marker(p: Progress, line: Seq<char>)
    requires
        !has_substr(line, "[Behaviour] OnPlayerLeft "@),
    ensures
        step(p, line).left == p.left,
{
}

/// A line that does not hold `Joining or Creating Room` leaves the current
/// world as it was.
pub proof fn lemma_world_needs_room(p: Progress, line: Seq<char>)
    requires
        !has_substr(line, "Joining or Creating Room"@),
    ensures
        step(p, line).world == p.world,
{
}

/// A line that holds none of the entries the analysis looks for changes
/// neither the users present, nor the world, nor the formatted lines, nor the
/// uploads, nor who joined or left.
pub proof fn lemma_unmarked_line(p: Progress, line: Seq<char>)
    requires
        !has_substr(line, "[Behaviour] OnPlayerJoined"@),
        !has_substr(line, "[Behaviour] OnPlayerLeft "@),
        !has_substr(line, "Attempting to resolve URL"@),
        !has_substr(line, "Resolving URL"@),
        !has_substr(line, "[VRC Camera] Took screenshot to"@),
        !has_substr(line, "Joining or Creating Room"@),
    ensures
        step(p, line).users == p.users,
        step(p, line).world == p.world,
        step(p, line).formatted == p.formatted,
        step(p, line).uploads == p.uploads,
        step(p, line).joined == p.joined,
        step(p, line).left == p.left,
{
}

/// A line that reports a user leaving, and nothing else the analysis looks
/// for, removes that user (by name without id) from the users present,
/// records the name as having left, and adds one formatted line.
pub proof fn lemma_leave_line(p: Progress, line: Seq<char>)
    requires
        has_substr(line, "[Behaviour] OnPlayerLeft "@),
        !has_substr(line, "[Behaviour] OnPlayerJoined"@),
        !has_substr(line, "Attempting to resolve URL"@),
        !has_substr(line, "Resolving URL"@),
        !has_substr(line, "[VRC Camera] Took screenshot to"@),
        !has_substr(line, "Joining or Creating Room"@),
    ensures
        step(p, line).users == others(p.users, without_user_id(byte_suffix(line, 59))),
        step(p, line).left == p.left.push(without_user_id(byte_suffix(line, 59))),
        step(p, line).formatted.len() == p.formatted.len() + 1,
        step(p, line).world == p.world,
{
}

/// The body of an overlay notice.
pub open spec fn overlay_body(n: NoticeView) -> Seq<char> {
    match n {
        NoticeView::Overlay(_, b) => b,
        _ => seq![],
    }
}

/// The closing notices of a round show every user who joined and every user
/// who left: one overlay each, whose body holds each name, the leave notice
/// built the same way as the join notice.
pub proof fn lemma_summary_names_everyone(names: Seq<Seq<char>>, count: nat, e1: Seq<char>, e2: Seq<char>)
    requires
        1 <= names.len() <= i32::MAX,
    ensures
        summary(left_head(), names, count, e1).len() == 1,
        summary(join_head(), names, count, e2).len() == 1,
        summary(left_head(), names, count, e1)[0] is Overlay,
        summary(join_head(), names, count, e2)[0] is Overlay,
        overlay_body(summary(left_head(), names, count, e1)[0]) == overlay_body(
            summary(join_head(), names, count, e2)[0],
        ),
        forall|i: int|
            0 <= i < names.len() ==> has_substr(
                overlay_body(summary(left_head(), names, count, e1)[0]),
                #[trigger] names[i],
            ),
{
    assert forall|i: int| 0 <= i < names.len() implies has_substr(
        overlay_body(summary(left_head(), names, count, e1)[0]),
        #[trigger] names[i],
    ) by {
        crate::text::lemma_join_holds_each(names, "\n"@, i);
    }
}

} // verus!
