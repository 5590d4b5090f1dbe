use vstd::prelude::*;
use regex::Regex;

use crate::text::{byte_boundary, byte_len, byte_suffix, contains, has_substr, lemma_views_push, owned, slice_from, views};

verus! {

// ---------------------------------------------------------------------
// User names and their ids
// ---------------------------------------------------------------------

/// A user id `(usr_...)` starts at character `i` of `name` and closes it:
/// it opens with `(usr_`, ends with the last character `)`, and no line
/// break stands between the two.
pub open spec fn user_id_at(name: Seq<char>, i: int) -> bool {
    &&& 0 <= i
    &&& i + 6 <= name.len()
    &&& name.subrange(i, i + 5) == seq!['(', 'u', 's', 'r', '_']
    &&& name.last() == ')'
    &&& forall|k: int| i + 5 <= k < name.len() - 1 ==> name[k] != '\n'
}

/// `name` ends with a user id.
pub open spec fn has_user_id(name: Seq<char>) -> bool {
    exists|i: int| user_id_at(name, i)
}

/// Where the leftmost user id of `name` starts.
pub open spec fn user_id_start(name: Seq<char>) -> int {
    choose|i: int| user_id_at(name, i) && forall|j: int| 0 <= j < i ==> !user_id_at(name, j)
}

/// `name` with its trailing user id taken off: everything before the
/// leftmost position where a user id starts, or `name` itself when none does.
pub open spec fn without_user_id(name: Seq<char>) -> Seq<char> {
    if has_user_id(name) {
        name.take(user_id_start(name))
    } else {
        name
    }
}

/// `Regex::replace_all` with the pattern `\(usr_.*\)$` and an empty replacement.
/// In the regex crate `.` matches any character but `\n`, `$` only the end of
/// the text, and the leftmost match wins; the pattern cannot match an empty
/// text, and its match always runs to the end, so at most one match is
/// replaced. The contract claims exactly that result, `without_user_id`.
#[verifier::external_body]
fn regex_strip_user_id(name: &str) -> (r: String)
    ensures
        r@ == without_user_id(name@),
{
    Regex::new(r"\(usr_.*\)$").unwrap().replace_all(name, "").to_string()
}

/// `Vec::shrink_to_fit`: releases spare capacity; the elements stay as they are.
#[verifier::external_body]
fn shrink_to_fit(v: &mut Vec<String>)
    ensures
        final(v)@ == old(v)@,
{
    v.shrink_to_fit();
}

/// A user name as VRChat logs it, with the trailing `(usr_...)` id removed.
pub fn rm_id(user_name: String) -> (r: String)
    ensures
        r@ == without_user_id(user_name@),
{
    regex_strip_user_id(user_name.as_str())
}

/// Adds a user to the list, by name without id, at the end.
pub fn user_push(users_name: &mut Vec<String>, user_name: &str)
    ensures
        views(final(users_name)@) == views(old(users_name)@).push(without_user_id(user_name@)),
{
    let name = rm_id(owned(user_name));
    proof {
        lemma_views_push(users_name@, name);
    }
    users_name.push(name);
    shrink_to_fit(users_name);
}

/// The names of `users` other than `name`, in their order.
pub open spec fn others(users: Seq<Seq<char>>, name: Seq<char>) -> Seq<Seq<char>> {
    users.filter(is_other(name))
}

/// Whether a user is someone other than `name`.
pub open spec fn is_other(name: Seq<char>) -> spec_fn(Seq<char>) -> bool {
    |u: Seq<char>| u != name
}

/// Removes every entry of the user from the list (compared by name without id).
pub fn user_remove(users_name: &mut Vec<String>, user_name: &str)
    ensures
        views(final(users_name)@) == others(views(old(users_name)@), without_user_id(user_name@)),
{
    let name = rm_id(owned(user_name));
    let ghost before = views(users_name@);
    let ghost pred = is_other(name@);
    let mut kept: Vec<String> = Vec::new();
    let n = users_name.len();
    let mut i: usize = 0;
    while i < n
        invariant
            n == users_name.len(),
            before == views(users_name@),
            i <= n,
            pred == is_other(name@),
            views(kept@) == before.take(i as int).filter(pred),
        decreases n - i,
    {
        reveal_with_fuel(Seq::<_>::filter, 1);
        assert(before.take(i + 1).drop_last() =~= before.take(i as int));
        if users_name[i] != name {
            let s = users_name[i].clone();
            proof {
                lemma_views_push(kept@, s);
            }
            kept.push(s);
        }
        i = i + 1;
    }
    assert(before.take(n as int) =~= before);
    *users_name = kept;
    shrink_to_fit(users_name);
}

// ---------------------------------------------------------------------
// Settings in config.txt
// ---------------------------------------------------------------------

/// Index of the first line that mentions `key`, if one does.
pub fn config_line(lines: &Vec<String>, key: &str) -> (r: Option<usize>)
    ensures
        match r {
            Some(i) => {
                &&& i < lines.len()
                &&& has_substr(lines@[i as int]@, key@)
                &&& forall|j: int| 0 <= j < i ==> !has_substr(#[trigger] lines@[j]@, key@)
            },
            None => forall|j: int| 0 <= j < lines.len() ==> !has_substr(#[trigger] lines@[j]@, key@),
        },
{
    let n = lines.len();
    let mut i: usize = 0;
    while i < n
        invariant
            n == lines.len(),
            i <= n,
            forall|j: int| 0 <= j < i ==> !has_substr(#[trigger] lines@[j]@, key@),
        decreases n - i,
    {
        if contains(lines[i].as_str(), key) {
            return Some(i);
        }
        i = i + 1;
    }
    None
}

/// The value on a settings line: what follows the key and one separator
/// character, counted in bytes as `&line[key.len() + 1..]` does.
pub fn config_entry_value(line: &str, key: &str) -> (r: String)
    requires
        byte_len(key@) < usize::MAX,
        byte_boundary(line@, byte_len(key@) + 1),
    ensures
        r@ == byte_suffix(line@, byte_len(key@) + 1),
{
    let cut = key.len() + 1;
    owned(slice_from(line, cut))
}

/// Debug output is on when the `debug_mode` setting exists and mentions `true`.
pub fn debug_enabled(setting: &Option<String>) -> (r: bool)
    ensures
        r == match setting {
            Some(v) => has_substr(v@, "true"@),
            None => false,
        },
{
    match setting {
        Some(v) => contains(v.as_str(), "true"),
        None => false,
    }
}

} // verus!

verus! {

// ---------------------------------------------------------------------
// Laws of the user list
// ---------------------------------------------------------------------

/// Where `name` holds a user id, there is a leftmost one.
proof fn lemma_first_user_id(name: Seq<char>, i: int)
    requires
        user_id_at(name, i),
    ensures
        exists|k: int| user_id_at(name, k) && forall|j: int| 0 <= j < k ==> !user_id_at(name, j),
    decreases i,
{
    if exists|j: int| 0 <= j < i && user_id_at(name, j) {
        let j = choose|j: int| 0 <= j < i && user_id_at(name, j);
        lemma_first_user_id(name, j);
    }
}

/// Taking the user id off a name twice gives what taking it off once gives:
/// a name without its id has no id left at its end.
pub proof fn lemma_rm_id_idempotent(name: Seq<char>)
    ensures
        without_user_id(without_user_id(name)) == without_user_id(name),
{
    if has_user_id(name) {
        let i0 = choose|i: int| user_id_at(name, i);
        lemma_first_user_id(name, i0);
        let i = user_id_start(name);
        let t = name.take(i);
        assert(user_id_at(name, i));
        if has_user_id(t) {
            let j = choose|j: int| user_id_at(t, j);
            assert(t.subrange(j, j + 5) =~= name.subrange(j, j + 5));
            assert forall|k: int| j + 5 <= k < name.len() - 1 implies name[k] != '\n' by {
                if k < i - 1 {
                    assert(t[k] == name[k]);
                } else if k == i - 1 {
                    assert(name[k] == t.last());
                } else if k < i + 5 {
                    assert(name[k] == name.subrange(i, i + 5)[k - i]);
                }
            }
            assert(user_id_at(name, j));
            assert(false);
        }
    }
}

/// A user who joins and then leaves is gone from the list, and the others
/// stay as they were.
pub proof fn lemma_join_then_leave(users: Seq<Seq<char>>, user_name: Seq<char>)
    ensures
        others(users.push(without_user_id(user_name)), without_user_id(user_name)) == others(
            users,
            without_user_id(user_name),
        ),
        !others(users, without_user_id(user_name)).contains(without_user_id(user_name)),
{
    let name = without_user_id(user_name);
    let pred = is_other(name);
    users.lemma_filter_push(name, pred);
    if others(users, name).contains(name) {
        let k = choose|k: int| 0 <= k < others(users, name).len() && others(users, name)[k] == name;
        broadcast use vstd::seq_lib::group_filter_ensures;
        assert(pred(others(users, name)[k]));
    }
}

} // verus!
