use vstd::prelude::*;
use vstd::utf8::encode_utf8;

use crate::text::{
    byte_boundary, byte_range, contains, has_substr, is_boundary, join, owned, seq_join,
    slice_range, views,
};

verus! {

// ---------------------------------------------------------------------
// Basic authentication for SDMS
// ---------------------------------------------------------------------

/// The character of a 6-bit value in the standard Base64 alphabet.
pub open spec fn base64_char(v: int) -> char {
    if 0 <= v < 26 {
        ('A' as int + v) as char
    } else if 26 <= v < 52 {
        ('a' as int + (v - 26)) as char
    } else if 52 <= v < 62 {
        ('0' as int + (v - 52)) as char
    } else if v == 62 {
        '+'
    } else {
        '/'
    }
}

/// Standard Base64 (RFC 4648, with `=` padding) of `b`: every three bytes
/// become four characters, and a last group of one or two bytes is padded.
pub open spec fn base64_standard(b: Seq<u8>) -> Seq<char>
    decreases b.len(),
{
    if b.len() == 0 {
        seq![]
    } else if b.len() == 1 {
        seq![base64_char(b[0] as int / 4), base64_char((b[0] as int % 4) * 16), '=', '=']
    } else if b.len() == 2 {
        seq![
            base64_char(b[0] as int / 4),
            base64_char((b[0] as int % 4) * 16 + b[1] as int / 16),
            base64_char((b[1] as int % 16) * 4),
            '=',
        ]
    } else {
        seq![
            base64_char(b[0] as int / 4),
            base64_char((b[0] as int % 4) * 16 + b[1] as int / 16),
            base64_char((b[1] as int % 16) * 4 + b[2] as int / 64),
            base64_char(b[2] as int % 64),
        ] + base64_standard(b.skip(3))
    }
}

/// `base64::encode`: the standard Base64 encoding with padding.
#[verifier::external_body]
#[allow(deprecated)]
fn base64_encode(input: &[u8]) -> (r: String)
    ensures
        r@ == base64_standard(input@),
{
    base64::encode(input)
}

/// The `Authorization` value for HTTP basic authentication of `user` with `password`.
pub open spec fn basic_auth_value(user: Seq<char>, password: Seq<char>) -> Seq<char> {
    "Basic "@ + base64_standard(encode_utf8(user + seq![':'] + password))
}

/// `Basic <base64 of user:password>`.
pub fn basic_auth(user: &str, password: &str) -> (r: String)
    ensures
        r@ == basic_auth_value(user@, password@),
{
    let mut credentials = owned(user);
    credentials.append(":");
    credentials.append(password);
    proof {
        reveal_strlit(":");
    }
    assert(credentials@ =~= user@ + seq![':'] + password@);
    let encoded = base64_encode(credentials.as_str().as_bytes());
    let mut r = owned("Basic ");
    r.append(encoded.as_str());
    r
}

/// The authorization SDMS is sent with: none when the user name is `none`,
/// else basic authentication.
pub fn idms_authorization(username: &str, password: &str) -> (r: Option<String>)
    ensures
        username@ == "none"@ ==> r is None,
        username@ != "none"@ ==> (r matches Some(a) && a@ == basic_auth_value(username@, password@)),
{
    if owned(username) == owned("none") {
        None
    } else {
        Some(basic_auth(username, password))
    }
}

/// A destination is configured: the setting exists, is not empty and does not mention `none`.
pub open spec fn service_on(setting: Option<Seq<char>>) -> bool {
    match setting {
        Some(v) => v.len() >= 1 && !has_substr(v, "none"@),
        None => false,
    }
}

/// Whether uploads go to the destination of this setting (an SDMS or Discord URL).
pub fn service_enabled(setting: &Option<String>) -> (r: bool)
    ensures
        r == service_on(
            match setting {
                Some(v) => Some(v@),
                None => None,
            },
        ),
{
    match setting {
        Some(v) => !v.as_str().is_empty() && !contains(v.as_str(), "none"),
        None => false,
    }
}

/// Whether the formatted log is sent to SDMS: the server setting exists and
/// does not mention `none`.
pub fn log_upload_enabled(setting: &Option<String>) -> (r: bool)
    ensures
        r == match setting {
            Some(v) => !has_substr(v@, "none"@),
            None => false,
        },
{
    match setting {
        Some(v) => !contains(v.as_str(), "none"),
        None => false,
    }
}

// ---------------------------------------------------------------------
// What is sent with a screenshot
// ---------------------------------------------------------------------

/// The byte offsets of the date and time in a screenshot name
/// (`VRChat_2024-01-02_03-04-05.678_1920x1080.png`) are character boundaries.
pub open spec fn date_cuttable(name: Seq<char>) -> bool {
    &&& byte_boundary(name, 7)
    &&& byte_boundary(name, 11)
    &&& byte_boundary(name, 12)
    &&& byte_boundary(name, 14)
    &&& byte_boundary(name, 15)
    &&& byte_boundary(name, 17)
    &&& byte_boundary(name, 18)
    &&& byte_boundary(name, 20)
    &&& byte_boundary(name, 21)
    &&& byte_boundary(name, 23)
    &&& byte_boundary(name, 24)
    &&& byte_boundary(name, 26)
}

/// `YYYYMMDDhhmmss` from bytes 7..11, 12..14, 15..17, 18..20, 21..23 and 24..26.
pub open spec fn date_text(name: Seq<char>) -> Seq<char> {
    byte_range(name, 7, 11) + byte_range(name, 12, 14) + byte_range(name, 15, 17) + byte_range(
        name,
        18,
        20,
    ) + byte_range(name, 21, 23) + byte_range(name, 24, 26)
}

/// Whether the date of a screenshot name can be cut out.
pub fn picture_date_cuttable(name: &str) -> (r: bool)
    ensures
        r == date_cuttable(name@),
{
    is_boundary(name, 7) && is_boundary(name, 11) && is_boundary(name, 12) && is_boundary(name, 14)
        && is_boundary(name, 15) && is_boundary(name, 17) && is_boundary(name, 18) && is_boundary(
        name,
        20,
    ) && is_boundary(name, 21) && is_boundary(name, 23) && is_boundary(name, 24) && is_boundary(
        name,
        26,
    )
}

/// The date a screenshot was taken, from its file name.
pub fn picture_date(picture_name: &str) -> (r: String)
    requires
        date_cuttable(picture_name@),
    ensures
        r@ == date_text(picture_name@),
{
    let mut r = owned(slice_range(picture_name, 7, 11));
    r.append(slice_range(picture_name, 12, 14));
    r.append(slice_range(picture_name, 15, 17));
    r.append(slice_range(picture_name, 18, 20));
    r.append(slice_range(picture_name, 21, 23));
    r.append(slice_range(picture_name, 24, 26));
    assert(r@ =~= date_text(picture_name@));
    r
}

/// The SDMS tag of a screenshot: the world and the users, joined by `00and00`.
pub fn idms_tag(world_name: &str, users_name: &Vec<String>) -> (r: String)
    ensures
        r@ == world_name@ + "00and00"@ + seq_join(views(users_name@), "00and00"@),
{
    let mut r = owned(world_name);
    r.append("00and00");
    let users = join(users_name, "00and00");
    r.append(users.as_str());
    r
}

/// The tag of a screenshot for the plain upload server: the world, then the
/// users, one per line.
pub fn upload_tag(world_name: &str, users_name: &Vec<String>) -> (r: String)
    ensures
        r@ == world_name@ + seq!['\n'] + seq_join(views(users_name@), "\n"@),
{
    let mut r = owned(world_name);
    crate::text::push_char(&mut r, '\n');
    let users = join(users_name, "\n");
    r.append(users.as_str());
    r
}

} // verus!

verus! {

/// Every setting that is not empty and does not mention `none` turns its
/// destination on, whatever else it holds (an `http://` or `https://` URL,
/// an address, any text).
pub proof fn lemma_any_configured_setting_enables(v: Seq<char>)
    requires
        v.len() > 0,
        !has_substr(v, "none"@),
    ensures
        service_on(Some(v)),
{
}

/// A missing setting, an empty one, or one that mentions `none` keeps its destination off.
pub proof fn lemma_unconfigured_setting_disables(setting: Option<Seq<char>>)
    requires
        match setting {
            Some(v) => v.len() == 0 || has_substr(v, "none"@),
            None => true,
        },
    ensures
        !service_on(setting),
{
}

} // verus!
