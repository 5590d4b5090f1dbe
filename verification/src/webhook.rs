use vstd::prelude::*;
use regex::Regex;

use crate::text::{byte_len, byte_len_below_two, contains, has_substr, join, owned, parse_u32, parse_unsigned, seq_join, views};

verus! {

// ---------------------------------------------------------------------
// Invites and requests to join
// ---------------------------------------------------------------------

/// `username:` starts at character `i` of `t`, `, sender user id:` at `j`,
/// and no line feed stands between the two.
pub open spec fn name_span(t: Seq<char>, i: int, j: int) -> bool {
    &&& 0 <= i
    &&& i + 9 <= j
    &&& j + 17 <= t.len()
    &&& t.subrange(i, i + 9) == "username:"@
    &&& t.subrange(j, j + 17) == ", sender user id:"@
    &&& forall|k: int| i + 9 <= k < j ==> t[k] != '\n'
}

/// `t` names the user who sent a notification.
#[verifier::opaque]
pub open spec fn has_username(t: Seq<char>) -> bool {
    exists|i: int, j: int| name_span(t, i, j)
}

/// The span that the pattern `(username:)(.*)(, sender user id:)` matches:
/// the leftmost start, and from there the longest run.
#[verifier::opaque]
pub open spec fn username_span(t: Seq<char>) -> (int, int) {
    choose|i: int, j: int|
        {
            &&& name_span(t, i, j)
            &&& forall|i2: int, j2: int| name_span(t, i2, j2) ==> i <= i2
            &&& forall|j2: int| name_span(t, i, j2) ==> j2 <= j
        }
}

/// The user name between `username:` and `, sender user id:`.
#[verifier::opaque]
pub open spec fn username_of(t: Seq<char>) -> Seq<char> {
    let (i, j) = username_span(t);
    t.subrange(i + 9, j)
}

/// `Regex::captures` with the pattern `(username:)(.*)(, sender user id:)`,
/// and the text of its second group. In the regex crate `.` matches any
/// character but `\n`, the leftmost match wins and `.*` takes as much as it
/// can; the contract claims that: a capture exactly when some span matches,
/// and then the name of `username_of`.
#[verifier::external_body]
fn regex_username(content: &str) -> (r: Option<String>)
    ensures
        r is Some <==> has_username(content@),
        r matches Some(u) ==> u@ == username_of(content@),
{
    match Regex::new(r"(username:)(.*)(, sender user id:)").unwrap().captures(content) {
        Some(c) => Some(c.get(2).map_or("", |m| m.as_str()).to_string()),
        None => None,
    }
}

/// What a notification line leads to.
pub enum InviteNotice {
    /// Nothing to send.
    Ignore,
    /// The line mentions a user name that cannot be found.
    Malformed,
    /// A Discord message to send, with the name to post it under.
    Send { actor_name: String, content: String },
}

/// The contents of an `InviteNotice`.
pub enum InviteView {
    Ignore,
    Malformed,
    Send(Seq<char>, Seq<char>),
}

impl View for InviteNotice {
    type V = InviteView;

    open spec fn view(&self) -> InviteView {
        match self {
            InviteNotice::Ignore => InviteView::Ignore,
            InviteNotice::Malformed => InviteView::Malformed,
            InviteNotice::Send { actor_name, content } => InviteView::Send(actor_name@, content@),
        }
    }
}

/// The answer to a notification line: an invite (`type: invite`) or a
/// request to join (`type: requestInvite`) from a user whose name has two
/// bytes or more becomes a Discord message.
pub open spec fn invite_answer(t: Seq<char>) -> InviteView {
    if !has_substr(t, "username:"@) {
        InviteView::Ignore
    } else if !has_username(t) {
        InviteView::Malformed
    } else {
        let u = username_of(t);
        if byte_len(u) < 2 {
            InviteView::Ignore
        } else if has_substr(t, "type: requestInvite"@) {
            InviteView::Send("ReqIn"@, u + "さんがあなたのインスタンスに入りたがっています。"@)
        } else if has_substr(t, "type: invite"@) {
            InviteView::Send("Invite"@, u + "さんから招待が届きました。"@)
        } else {
            InviteView::Ignore
        }
    }
}

/// What to send for a notification line of the log.
pub fn invite_notice(content: &str) -> (r: InviteNotice)
    ensures
        r@ == invite_answer(content@),
{
    let request = contains(content, "type: requestInvite");
    let invite = contains(content, "type: invite");
    if !contains(content, "username:") {
        return InviteNotice::Ignore;
    }
    let user_name = match regex_username(content) {
        Some(u) => u,
        None => {
            return InviteNotice::Malformed;
        },
    };
    if byte_len_below_two(user_name.as_str()) {
        return InviteNotice::Ignore;
    }
    if request {
        let mut text = user_name;
        text.append("さんがあなたのインスタンスに入りたがっています。");
        InviteNotice::Send { actor_name: owned("ReqIn"), content: text }
    } else if invite {
        let mut text = user_name;
        text.append("さんから招待が届きました。");
        InviteNotice::Send { actor_name: owned("Invite"), content: text }
    } else {
        InviteNotice::Ignore
    }
}

// ---------------------------------------------------------------------
// Screenshots posted to Discord
// ---------------------------------------------------------------------

/// The message posted with a screenshot: the world, then the users one per line.
pub open spec fn picture_text(world: Seq<char>, users: Seq<Seq<char>>) -> Seq<char> {
    "ワールド名: "@ + world + "\n\nユーザー\n"@ + seq_join(users, "\n"@)
}

/// The message posted with a screenshot.
pub fn picture_post_text(world_name: &str, users_name: &Vec<String>) -> (r: String)
    ensures
        r@ == picture_text(world_name@, views(users_name@)),
{
    let mut r = owned("ワールド名: ");
    r.append(world_name);
    r.append("\n\nユーザー\n");
    let users = join(users_name, "\n");
    r.append(users.as_str());
    r
}

/// A screenshot of this many bytes is too large to post as it is and goes
/// through WebP compression first (Discord takes less than 10 MB).
pub fn needs_compression(file_size: u64) -> (r: bool)
    ensures
        r == (file_size >= 10_000_000),
{
    !(file_size < 10 * 1000 * 1000)
}

/// The largest side of a compressed screenshot from the
/// `discord_webhook_image_resolution` setting: its number, or 0 (no limit)
/// when the setting is missing or not a `u32`.
pub fn resolution_setting(setting: &Option<String>) -> (r: u32)
    ensures
        r == match setting {
            Some(v) => match parse_unsigned(v@, u32::MAX as int) {
                Some(x) => x as u32,
                None => 0,
            },
            None => 0,
        },
{
    match setting {
        Some(v) => match parse_u32(v.as_str()) {
            Some(x) => x,
            None => 0,
        },
        None => 0,
    }
}

} // verus!
