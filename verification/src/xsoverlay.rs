use vstd::prelude::*;

use crate::text::{count_field, has_substr, join, lemma_join_holds_each, push_count_field, seq_join, views};

verus! {

/// The head of the title of a join notice.
pub open spec fn join_head() -> Seq<char> {
    "JOIN ["@
}

/// The head of the title of a leave notice.
pub open spec fn left_head() -> Seq<char> {
    "LEFT ["@
}

/// The title of a join or leave notice, such as `JOIN [  3人]`.
pub open spec fn overlay_title(head: Seq<char>, count: nat) -> Seq<char> {
    head + count_field(count) + "人]"@
}

/// The title and text of the overlay notice for several users who joined
/// (`notification_type` 1) or left (2): the users one per line under a title
/// with the number of users present. Any other type has no notice.
pub open spec fn users_overlay(notification_type: i32, users: Seq<Seq<char>>, count: nat) -> Option<
    (Seq<char>, Seq<char>),
> {
    if notification_type == 1 {
        Some((overlay_title(join_head(), count), seq_join(users, "\n"@)))
    } else if notification_type == 2 {
        Some((overlay_title(left_head(), count), seq_join(users, "\n"@)))
    } else {
        None
    }
}

/// The overlay notice for several users who joined or left (see `users_overlay`).
pub fn overlay_for_users(notification_type: i32, user_vec: &Vec<String>, number_of_users: usize) -> (r:
    Option<(String, String)>)
    ensures
        match r {
            Some((t, c)) => users_overlay(notification_type, views(user_vec@), number_of_users as nat)
                == Some((t@, c@)),
            None => users_overlay(notification_type, views(user_vec@), number_of_users as nat) is None,
        },
{
    let content = join(user_vec, "\n");
    if notification_type == 1 {
        let mut t = String::new();
        t.append("JOIN [");
        push_count_field(&mut t, number_of_users);
        t.append("人]");
        Some((t, content))
    } else if notification_type == 2 {
        let mut t = String::new();
        t.append("LEFT [");
        push_count_field(&mut t, number_of_users);
        t.append("人]");
        Some((t, content))
    } else {
        None
    }
}

} // verus!

verus! {

/// A leave notice shows every user who left, as a join notice shows every
/// user who joined: both bodies are the names joined by line feeds, each
/// name appears in the body, and the title counts the users present.
pub proof fn lemma_notice_names_everyone(users: Seq<Seq<char>>, count: nat)
    ensures
        users_overlay(1, users, count) is Some,
        users_overlay(2, users, count) is Some,
        users_overlay(2, users, count).unwrap().1 == users_overlay(1, users, count).unwrap().1,
        users_overlay(2, users, count).unwrap().1 == seq_join(users, seq!['\n']),
        users_overlay(1, users, count).unwrap().0 == "JOIN ["@ + count_field(count) + "人]"@,
        users_overlay(2, users, count).unwrap().0 == "LEFT ["@ + count_field(count) + "人]"@,
        forall|i: int|
            0 <= i < users.len() ==> has_substr(
                users_overlay(2, users, count).unwrap().1,
                #[trigger] users[i],
            ) && has_substr(users_overlay(1, users, count).unwrap().1, users[i]),
{
    reveal_strlit("\n");
    assert("\n"@ =~= seq!['\n']);
    assert forall|i: int| 0 <= i < users.len() implies has_substr(
        users_overlay(2, users, count).unwrap().1,
        #[trigger] users[i],
    ) && has_substr(users_overlay(1, users, count).unwrap().1, users[i]) by {
        lemma_join_holds_each(users, "\n"@, i);
    }
}

} // verus!
