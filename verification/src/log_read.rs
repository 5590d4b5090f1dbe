use vstd::prelude::*;

use crate::text::{
    byte_boundary, byte_range, contains, has_substr, is_boundary, lemma_views_push, owned,
    parse_i64, parse_signed, push_char, slice_range, to_chars, views,
};

verus! {

// ---------------------------------------------------------------------
// Splitting a log into lines
// ---------------------------------------------------------------------

/// The pieces of `s` between line feeds, in order: one more than there are line feeds.
pub open spec fn split_newlines(s: Seq<char>) -> Seq<Seq<char>>
    decreases s.len(),
{
    if s.len() == 0 {
        seq![seq![]]
    } else {
        let p = split_newlines(s.drop_last());
        if s.last() == '\n' {
            p.push(seq![])
        } else {
            p.update(p.len() - 1, p.last().push(s.last()))
        }
    }
}

/// A line that ended with a line feed, without a carriage return just before it.
pub open spec fn strip_cr(l: Seq<char>) -> Seq<char> {
    if l.len() > 0 && l.last() == '\r' {
        l.drop_last()
    } else {
        l
    }
}

/// The lines of `s` as `str::lines` yields them: split at `\n` or `\r\n`,
/// without the terminators, and with no empty line after a final terminator.
pub open spec fn text_lines(s: Seq<char>) -> Seq<Seq<char>> {
    let p = split_newlines(s);
    let done = p.drop_last().map_values(|l: Seq<char>| strip_cr(l));
    if p.last().len() == 0 {
        done
    } else {
        done.push(p.last())
    }
}

pub proof fn lemma_split_newlines_len(s: Seq<char>)
    ensures
        split_newlines(s).len() >= 1,
    decreases s.len(),
{
    if s.len() > 0 {
        lemma_split_newlines_len(s.drop_last());
    }
}

/// The lines of a log held in one string.
pub fn log_in_vec(log_data: &str) -> (r: Vec<String>)
    ensures
        views(r@) == text_lines(log_data@),
{
    let c = to_chars(log_data);
    let n = c.len();
    let mut lines: Vec<String> = Vec::new();
    let mut cur = String::new();
    let mut pending_cr = false;
    let mut i: usize = 0;
    proof {
        assert(c@.take(0) =~= Seq::<char>::empty());
    }
    while i < n
        invariant
            n == c.len(),
            c@ == log_data@,
            i <= n,
            split_newlines(c@.take(i as int)).len() >= 1,
            views(lines@) == split_newlines(c@.take(i as int)).drop_last().map_values(
                |l: Seq<char>| strip_cr(l),
            ),
            ({
                let last = split_newlines(c@.take(i as int)).last();
                &&& pending_cr <==> (last.len() > 0 && last.last() == '\r')
                &&& cur@ == if pending_cr { last.drop_last() } else { last }
            }),
        decreases n - i,
    {
        let ghost before = split_newlines(c@.take(i as int));
        let ch = c[i];
        assert(c@.take(i + 1).drop_last() =~= c@.take(i as int));
        assert(c@.take(i + 1).last() == ch);
        let ghost after = split_newlines(c@.take(i + 1));
        if ch == '\n' {
            assert(after == before.push(seq![]));
            let line = cur;
            proof {
                lemma_views_push(lines@, line);
                assert(strip_cr(before.last()) == line@);
                assert(after.drop_last().map_values(|l: Seq<char>| strip_cr(l)) =~= before.drop_last().map_values(
                    |l: Seq<char>| strip_cr(l),
                ).push(line@));
            }
            lines.push(line);
            cur = String::new();
            pending_cr = false;
        } else {
            assert(after == before.update(before.len() - 1, before.last().push(ch)));
            if pending_cr {
                push_char(&mut cur, '\r');
            }
            if ch == '\r' {
                pending_cr = true;
            } else {
                push_char(&mut cur, ch);
                pending_cr = false;
            }
            proof {
                assert(after.drop_last() =~= before.drop_last());
                assert(after.last() == before.last().push(ch));
                assert(cur@ =~= if pending_cr { after.last().drop_last() } else { after.last() });
            }
        }
        i = i + 1;
    }
    assert(c@.take(n as int) =~= c@);
    let ghost p = split_newlines(log_data@);
    if pending_cr {
        push_char(&mut cur, '\r');
    }
    assert(cur@ =~= p.last());
    if !cur.as_str().is_empty() || pending_cr {
        proof {
            lemma_views_push(lines@, cur);
        }
        lines.push(cur);
    }
    lines
}

// ---------------------------------------------------------------------
// Picking the newest log file
// ---------------------------------------------------------------------

/// A file name that VRChat's log files carry.
pub open spec fn is_log_name(name: Seq<char>) -> bool {
    has_substr(name, "output_log_"@)
}

/// The date and time digits of a log file name: bytes 11..15, 16..18, 19..21,
/// 22..24, 25..27 and 28..30 of `output_log_YYYY-MM-DD_hh-mm-ss.txt`, joined.
pub open spec fn stamp_text(name: Seq<char>) -> Seq<char> {
    byte_range(name, 11, 15) + byte_range(name, 16, 18) + byte_range(name, 19, 21) + byte_range(
        name,
        22,
        24,
    ) + byte_range(name, 25, 27) + byte_range(name, 28, 30)
}

/// The stamp of `name` can be cut out at those byte offsets and read as an `i64`.
pub open spec fn stamp_readable(name: Seq<char>) -> bool {
    &&& byte_boundary(name, 11)
    &&& byte_boundary(name, 15)
    &&& byte_boundary(name, 16)
    &&& byte_boundary(name, 18)
    &&& byte_boundary(name, 19)
    &&& byte_boundary(name, 21)
    &&& byte_boundary(name, 22)
    &&& byte_boundary(name, 24)
    &&& byte_boundary(name, 25)
    &&& byte_boundary(name, 27)
    &&& byte_boundary(name, 28)
    &&& byte_boundary(name, 30)
    &&& parse_signed(stamp_text(name), i64::MIN as int, i64::MAX as int) is Some
}

/// The time stamp of a log file name, such as 20240101123456.
pub open spec fn stamp_value(name: Seq<char>) -> int {
    parse_signed(stamp_text(name), i64::MIN as int, i64::MAX as int).unwrap()
}

/// The time stamp of a log file name, or `None` where it cannot be cut out or read.
pub fn log_time(name: &str) -> (r: Option<i64>)
    ensures
        stamp_readable(name@) <==> r is Some,
        r matches Some(t) ==> t as int == stamp_value(name@),
{
    if !(is_boundary(name, 11) && is_boundary(name, 15) && is_boundary(name, 16) && is_boundary(
        name,
        18,
    ) && is_boundary(name, 19) && is_boundary(name, 21) && is_boundary(name, 22) && is_boundary(
        name,
        24,
    ) && is_boundary(name, 25) && is_boundary(name, 27) && is_boundary(name, 28) && is_boundary(
        name,
        30,
    )) {
        return None;
    }
    let mut t = owned(slice_range(name, 11, 15));
    t.append(slice_range(name, 16, 18));
    t.append(slice_range(name, 19, 21));
    t.append(slice_range(name, 22, 24));
    t.append(slice_range(name, 25, 27));
    t.append(slice_range(name, 28, 30));
    assert(t@ =~= stamp_text(name@));
    parse_i64(t.as_str())
}

/// `names[i]` is the log file that is picked: a log name with a stamp above
/// zero, none newer among the log names, and none as new before it.
pub open spec fn newest_at(names: Seq<Seq<char>>, i: int) -> bool {
    &&& 0 <= i < names.len()
    &&& is_log_name(names[i])
    &&& stamp_value(names[i]) > 0
    &&& forall|j: int|
        0 <= j < names.len() && is_log_name(#[trigger] names[j]) ==> stamp_value(names[j])
            <= stamp_value(names[i])
    &&& forall|j: int|
        0 <= j < i && is_log_name(#[trigger] names[j]) ==> stamp_value(names[j]) < stamp_value(
            names[i],
        )
}

/// Every log name among `names` carries a readable stamp.
pub open spec fn stamps_readable(names: Seq<Seq<char>>) -> bool {
    forall|j: int| 0 <= j < names.len() && is_log_name(#[trigger] names[j]) ==> stamp_readable(names[j])
}

/// The name of the newest VRChat log among the file names of the log folder,
/// or an empty name when no log name carries a stamp above zero.
pub fn latest_log_file(names: &Vec<String>) -> (r: String)
    requires
        stamps_readable(views(names@)),
    ensures
        (exists|i: int| newest_at(views(names@), i) && r@ == views(names@)[i]) || (r@ == Seq::<
            char,
        >::empty() && forall|j: int|
            0 <= j < names.len() && is_log_name(#[trigger] views(names@)[j]) ==> stamp_value(
                views(names@)[j],
            ) <= 0),
{
    let ghost vs = views(names@);
    let mut latest_file = String::new();
    let mut latest_time: i64 = 0;
    let mut found: Option<usize> = None;
    let n = names.len();
    let mut i: usize = 0;
    while i < n
        invariant
            n == names.len(),
            vs == views(names@),
            stamps_readable(vs),
            i <= n,
            forall|j: int|
                0 <= j < i && is_log_name(#[trigger] vs[j]) ==> stamp_value(vs[j]) <= latest_time,
            match found {
                Some(k) => {
                    &&& k < i
                    &&& is_log_name(vs[k as int])
                    &&& stamp_value(vs[k as int]) == latest_time
                    &&& latest_time > 0
                    &&& latest_file@ == vs[k as int]
                    &&& forall|j: int|
                        0 <= j < k && is_log_name(#[trigger] vs[j]) ==> stamp_value(vs[j])
                            < latest_time
                },
                None => latest_time == 0 && latest_file@ == Seq::<char>::empty(),
            },
        decreases n - i,
    {
        let name = names[i].as_str();
        assert(vs[i as int] == name@);
        if contains(name, "output_log_") {
            let t = match log_time(name) {
                Some(t) => t,
                None => {
                    assert(false);
                    0
                },
            };
            if latest_time < t {
                latest_time = t;
                latest_file = owned(name);
                found = Some(i);
            }
        }
        i = i + 1;
    }
    proof {
        match found {
            Some(k) => {
                assert(newest_at(vs, k as int));
            },
            None => {},
        }
    }
    latest_file
}

} // verus!

verus! {

// ---------------------------------------------------------------------
// Laws of line splitting
// ---------------------------------------------------------------------

/// Text without line feeds extends the last piece.
proof fn lemma_split_append(s: Seq<char>, t: Seq<char>)
    requires
        !t.contains('\n'),
    ensures
        split_newlines(s + t) == split_newlines(s).update(
            split_newlines(s).len() - 1,
            split_newlines(s).last() + t,
        ),
    decreases t.len(),
{
    lemma_split_newlines_len(s);
    if t.len() == 0 {
        assert(s + t =~= s);
        assert(split_newlines(s).last() + t =~= split_newlines(s).last());
        assert(split_newlines(s).update(split_newlines(s).len() - 1, split_newlines(s).last())
            =~= split_newlines(s));
    } else {
        let u = t.drop_last();
        assert(!u.contains('\n')) by {
            if u.contains('\n') {
                let k = choose|k: int| 0 <= k < u.len() && u[k] == '\n';
                assert(t[k] == '\n');
            }
        }
        lemma_split_append(s, u);
        assert((s + t).drop_last() =~= s + u);
        assert((s + t).last() == t.last());
        assert(t.last() != '\n') by {
            assert(t[t.len() - 1] == t.last());
        }
        lemma_split_newlines_len(s + u);
        let q = split_newlines(s + u);
        assert(split_newlines(s + t) == q.update(q.len() - 1, q.last().push(t.last())));
        assert(q.last() == split_newlines(s).last() + u);
        assert(split_newlines(s).last() + u + seq![t.last()] =~= split_newlines(s).last() + t);
        assert(q.last().push(t.last()) =~= split_newlines(s).last() + t);
        assert(split_newlines(s + t) =~= split_newlines(s).update(
            split_newlines(s).len() - 1,
            split_newlines(s).last() + t,
        ));
    }
}

/// A line feed, then text without line feeds: a new last piece.
proof fn lemma_split_new_piece(s: Seq<char>, t: Seq<char>)
    requires
        !t.contains('\n'),
    ensures
        split_newlines(s + seq!['\n'] + t) == split_newlines(s).push(t),
{
    let s1 = s + seq!['\n'];
    assert(s1.drop_last() =~= s);
    assert(split_newlines(s1) == split_newlines(s).push(seq![]));
    lemma_split_append(s1, t);
    assert(seq![] + t =~= t);
    assert(split_newlines(s1).update(split_newlines(s1).len() - 1, split_newlines(s1).last() + t)
        =~= split_newlines(s).push(t));
}

/// Lines without line feeds, joined by line feeds, split into the same lines.
proof fn lemma_split_join(lines: Seq<Seq<char>>)
    requires
        lines.len() >= 1,
        forall|i: int| 0 <= i < lines.len() ==> !(#[trigger] lines[i]).contains('\n'),
    ensures
        split_newlines(crate::text::seq_join(lines, seq!['\n'])) == lines,
    decreases lines.len(),
{
    if lines.len() == 1 {
        let e = Seq::<char>::empty();
        lemma_split_append(e, lines[0]);
        assert(e + lines[0] =~= lines[0]);
        assert(split_newlines(e) == seq![e]);
        assert(seq![e].update(0, e + lines[0]) =~= lines);
    } else {
        let init = lines.drop_last();
        assert forall|i: int| 0 <= i < init.len() implies !(#[trigger] init[i]).contains('\n') by {
            assert(init[i] == lines[i]);
        }
        lemma_split_join(init);
        assert(!lines.last().contains('\n')) by {
            assert(lines[lines.len() - 1] == lines.last());
        }
        lemma_split_new_piece(crate::text::seq_join(init, seq!['\n']), lines.last());
        assert(init.push(lines.last()) =~= lines);
    }
}

/// The last line terminator of a text is optional: where the last line is
/// not empty and does not end with a carriage return, adding `\n` or `\r\n`
/// at the end leaves the lines as they were.
pub proof fn lemma_final_line_ending(s: Seq<char>)
    requires
        split_newlines(s).last().len() > 0,
        split_newlines(s).last().last() != '\r',
    ensures
        text_lines(s.push('\n')) == text_lines(s),
        text_lines(s.push('\r').push('\n')) == text_lines(s),
{
    lemma_split_newlines_len(s);
    let p = split_newlines(s);
    assert(s.push('\n').drop_last() =~= s);
    assert(split_newlines(s.push('\n')) == p.push(seq![]));
    assert(p.push(seq![]).drop_last() =~= p);
    assert(p.map_values(|l: Seq<char>| strip_cr(l)) =~= p.drop_last().map_values(
        |l: Seq<char>| strip_cr(l),
    ).push(p.last()));
    let s2 = s.push('\r');
    assert(s2.drop_last() =~= s);
    let p2 = p.update(p.len() - 1, p.last().push('\r'));
    assert(split_newlines(s2) == p2);
    assert(s2.push('\n').drop_last() =~= s2);
    assert(split_newlines(s2.push('\n')) == p2.push(seq![]));
    assert(p2.push(seq![]).drop_last() =~= p2);
    assert(p.last().push('\r').drop_last() =~= p.last());
    assert(p2.map_values(|l: Seq<char>| strip_cr(l)) =~= p.drop_last().map_values(
        |l: Seq<char>| strip_cr(l),
    ).push(p.last()));
}

/// Lines joined with `\n` split back into the same lines, where no line holds
/// a line feed, no line but the last ends with a carriage return, and the
/// last line is not empty.
pub proof fn lemma_lines_of_joined(lines: Seq<Seq<char>>)
    requires
        lines.len() >= 1,
        lines.last().len() > 0,
        forall|i: int| 0 <= i < lines.len() ==> !(#[trigger] lines[i]).contains('\n'),
        forall|i: int|
            0 <= i < lines.len() - 1 ==> (#[trigger] lines[i]).len() == 0 || lines[i].last()
                != '\r',
    ensures
        text_lines(crate::text::seq_join(lines, "\n"@)) == lines,
{
    reveal_strlit("\n");
    assert("\n"@ =~= seq!['\n']);
    lemma_split_join(lines);
    assert(lines.drop_last().map_values(|l: Seq<char>| strip_cr(l)) =~= lines.drop_last());
    assert(lines.drop_last().push(lines.last()) =~= lines);
}

} // verus!
