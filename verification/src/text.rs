use vstd::prelude::*;
use vstd::utf8::*;

verus! {

broadcast use vstd::utf8::group_utf8_lib;

// ---------------------------------------------------------------------
// Substring search
// ---------------------------------------------------------------------

/// `pat` occurs in `s` starting at character position `i`.
pub open spec fn occurs_at(s: Seq<char>, pat: Seq<char>, i: int) -> bool {
    0 <= i && i + pat.len() <= s.len() && s.subrange(i, i + pat.len()) == pat
}

/// `pat` occurs somewhere in `s` (the empty pattern occurs in every text).
pub open spec fn has_substr(s: Seq<char>, pat: Seq<char>) -> bool {
    exists|i: int| occurs_at(s, pat, i)
}

/// The characters of `s`, in order.
pub fn to_chars(s: &str) -> (v: Vec<char>)
    ensures
        v@ == s@,
{
    let mut v: Vec<char> = Vec::new();
    for c in it: s.chars()
        invariant
            v@ == it.seq().take(it.index() as int),
            it.seq() == s@,
    {
        v.push(c);
    }
    v
}

/// Whether `pat` occurs in `s` at position `i`.
fn matches_at(s: &Vec<char>, pat: &Vec<char>, i: usize) -> (r: bool)
    requires
        i + pat.len() <= s.len(),
    ensures
        r == occurs_at(s@, pat@, i as int),
{
    let m = pat.len();
    let mut j: usize = 0;
    while j < m
        invariant
            i + m <= s.len(),
            m == pat.len(),
            j <= m,
            forall|k: int| 0 <= k < j ==> s@[i + k] == pat@[k],
        decreases m - j,
    {
        if s[i + j] != pat[j] {
            assert(s@.subrange(i as int, i + m)[j as int] != pat@[j as int]);
            return false;
        }
        j = j + 1;
    }
    assert(s@.subrange(i as int, i + m) =~= pat@);
    true
}

/// Whether `pat` occurs anywhere in `s`, both given as characters.
pub fn chars_contain(s: &Vec<char>, pat: &Vec<char>) -> (r: bool)
    ensures
        r == has_substr(s@, pat@),
{
    let n = s.len();
    let m = pat.len();
    if m > n {
        return false;
    }
    let last = n - m;
    let mut i: usize = 0;
    loop
        invariant
            n == s.len(),
            m == pat.len(),
            m <= n,
            last == n - m,
            i <= last,
            forall|k: int| 0 <= k < i ==> !occurs_at(s@, pat@, k),
        decreases last - i,
    {
        if matches_at(s, pat, i) {
            return true;
        }
        if i == last {
            assert forall|k: int| !occurs_at(s@, pat@, k) by {
                if 0 <= k < i {
                }
            }
            return false;
        }
        i = i + 1;
    }
}

/// Whether `pat` occurs anywhere in `s` (what `str::contains` answers for a `&str` pattern).
pub fn contains(s: &str, pat: &str) -> (r: bool)
    ensures
        r == has_substr(s@, pat@),
{
    let sc = to_chars(s);
    let pc = to_chars(pat);
    chars_contain(&sc, &pc)
}

// ---------------------------------------------------------------------
// Slicing by byte offsets, as `&s[a..b]` does
// ---------------------------------------------------------------------

/// The number of bytes in the UTF-8 encoding of `s` (`str::len`).
pub open spec fn byte_len(s: Seq<char>) -> int {
    encode_utf8(s).len() as int
}

/// Byte offset `b` falls on a character boundary of the UTF-8 encoding of `s`
/// (the end of the encoding included): where `&s[b..]` does not panic.
pub open spec fn byte_boundary(s: Seq<char>, b: int) -> bool {
    is_char_boundary(encode_utf8(s), b)
}

/// `&s[b..]`: the characters whose encoding starts at byte `b` or later.
pub open spec fn byte_suffix(s: Seq<char>, b: int) -> Seq<char> {
    decode_utf8(encode_utf8(s).subrange(b, encode_utf8(s).len() as int))
}

/// `&s[a..b]`: the characters whose encoding lies between bytes `a` and `b`.
pub open spec fn byte_range(s: Seq<char>, a: int, b: int) -> Seq<char> {
    decode_utf8(encode_utf8(s).subrange(a, b))
}

/// Every character takes one byte or more.
pub proof fn lemma_byte_len_ge(s: Seq<char>)
    ensures
        byte_len(s) >= s.len(),
    decreases s.len(),
{
    if s.len() > 0 {
        lemma_byte_len_ge(s.drop_first());
        assert(encode_scalar(s[0] as u32).len() >= 1);
    }
}

/// Whether the UTF-8 encoding of `s` is shorter than two bytes.
pub fn byte_len_below_two(s: &str) -> (r: bool)
    ensures
        r == (byte_len(s@) < 2),
{
    let c = to_chars(s);
    proof {
        lemma_byte_len_ge(s@);
    }
    if c.len() == 0 {
        true
    } else if c.len() == 1 {
        let x = c[0];
        proof {
            assert(s@.drop_first() =~= Seq::<char>::empty());
            assert(encode_utf8(s@) == encode_scalar(s@[0] as u32) + encode_utf8(s@.drop_first()));
        }
        (x as u32) < 0x80
    } else {
        false
    }
}

/// The start of every text is a character boundary.
pub proof fn lemma_boundary_zero(s: Seq<char>)
    ensures
        byte_boundary(s, 0),
{
    is_char_boundary_start_end_of_seq(encode_utf8(s));
}

/// Whether byte offset `b` is a character boundary of `s` (`str::is_char_boundary`).
pub fn is_boundary(s: &str, b: usize) -> (r: bool)
    ensures
        r == byte_boundary(s@, b as int),
{
    s.is_char_boundary(b)
}

/// `&s[b..]`.
pub fn slice_from(s: &str, b: usize) -> (r: &str)
    requires
        byte_boundary(s@, b as int),
    ensures
        r@ == byte_suffix(s@, b as int),
{
    let (_, tail) = s.split_at(b);
    proof {
        assert(decode_utf8(encode_utf8(tail@)) == tail@);
    }
    tail
}

/// `&s[a..b]`.
pub fn slice_range(s: &str, a: usize, b: usize) -> (r: &str)
    requires
        a <= b,
        byte_boundary(s@, a as int),
        byte_boundary(s@, b as int),
    ensures
        r@ == byte_range(s@, a as int, b as int),
{
    let (head, _) = s.split_at(b);
    proof {
        let bytes = encode_utf8(s@);
        let hb = bytes.subrange(0, b as int);
        assert(encode_utf8(head@) == hb);
        assert(valid_utf8(hb));
        if a < b {
            is_char_boundary_iff_not_is_continuation_byte(bytes, a as int);
            is_char_boundary_iff_not_is_continuation_byte(hb, a as int);
        } else {
            is_char_boundary_start_end_of_seq(hb);
        }
    }
    let (_, mid) = head.split_at(a);
    proof {
        assert(encode_utf8(mid@) =~= encode_utf8(s@).subrange(a as int, b as int));
        assert(decode_utf8(encode_utf8(mid@)) == mid@);
    }
    mid
}

// ---------------------------------------------------------------------
// Building strings
// ---------------------------------------------------------------------

/// `String::push`: appends one character at the end of the string.
#[verifier::external_body]
pub(crate) fn push_char(s: &mut String, c: char)
    ensures
        final(s)@ == old(s)@.push(c),
{
    s.push(c);
}

/// A fresh `String` holding the characters of `s`.
pub fn owned(s: &str) -> (r: String)
    ensures
        r@ == s@,
{
    s.to_owned()
}

/// The views of a sequence of strings.
pub open spec fn views(v: Seq<String>) -> Seq<Seq<char>> {
    v.map_values(|s: String| s@)
}

/// Pushing a string pushes its view.
pub proof fn lemma_views_push(v: Seq<String>, s: String)
    ensures
        views(v.push(s)) == views(v).push(s@),
{
    assert(views(v.push(s)) =~= views(v).push(s@));
}

/// The elements of `list` with `sep` between each two neighbours.
pub open spec fn seq_join(list: Seq<Seq<char>>, sep: Seq<char>) -> Seq<char>
    decreases list.len(),
{
    if list.len() == 0 {
        seq![]
    } else if list.len() == 1 {
        list[0]
    } else {
        seq_join(list.drop_last(), sep) + sep + list.last()
    }
}

/// `list.join(sep)`.
pub fn join(list: &Vec<String>, sep: &str) -> (r: String)
    ensures
        r@ == seq_join(views(list@), sep@),
{
    let mut r = String::new();
    let ghost vs = views(list@);
    let n = list.len();
    let mut i: usize = 0;
    while i < n
        invariant
            n == list.len(),
            vs == views(list@),
            i <= n,
            r@ == seq_join(vs.take(i as int), sep@),
        decreases n - i,
    {
        assert(vs.take(i + 1).drop_last() =~= vs.take(i as int));
        if i != 0 {
            r.append(sep);
        }
        r.append(list[i].as_str());
        i = i + 1;
    }
    assert(vs.take(n as int) =~= vs);
    r
}

// ---------------------------------------------------------------------
// Decimal numbers
// ---------------------------------------------------------------------

/// The character of a decimal digit.
pub open spec fn digit_char(d: nat) -> char {
    if d == 0 { '0' }
    else if d == 1 { '1' }
    else if d == 2 { '2' }
    else if d == 3 { '3' }
    else if d == 4 { '4' }
    else if d == 5 { '5' }
    else if d == 6 { '6' }
    else if d == 7 { '7' }
    else if d == 8 { '8' }
    else { '9' }
}

/// The decimal notation of `n`, without sign or leading zeros.
pub open spec fn decimal(n: nat) -> Seq<char>
    decreases n,
{
    if n < 10 {
        seq![digit_char(n)]
    } else {
        decimal(n / 10).push(digit_char(n % 10))
    }
}

/// `n` right-aligned in a field of three characters, as `format!("{: >3}", n)` writes it.
pub open spec fn count_field(n: nat) -> Seq<char> {
    let d = decimal(n);
    if d.len() < 3 {
        Seq::new((3 - d.len()) as nat, |i: int| ' ') + d
    } else {
        d
    }
}

/// Appends the decimal notation of `n` to `s`.
pub fn push_decimal(s: &mut String, n: usize)
    ensures
        final(s)@ == old(s)@ + decimal(n as nat),
    decreases n,
{
    if n >= 10 {
        push_decimal(s, n / 10);
    }
    let d = n % 10;
    let c = if d == 0 { '0' }
        else if d == 1 { '1' }
        else if d == 2 { '2' }
        else if d == 3 { '3' }
        else if d == 4 { '4' }
        else if d == 5 { '5' }
        else if d == 6 { '6' }
        else if d == 7 { '7' }
        else if d == 8 { '8' }
        else { '9' };
    push_char(s, c);
}

/// Appends `n` right-aligned in three characters to `s`.
pub fn push_count_field(s: &mut String, n: usize)
    ensures
        final(s)@ == old(s)@ + count_field(n as nat),
{
    let ghost start = s@;
    if n < 10 {
        push_char(s, ' ');
        push_char(s, ' ');
        assert(Seq::new(2, |i: int| ' ') =~= seq![' ', ' ']);
    } else if n < 100 {
        push_char(s, ' ');
        assert(Seq::new(1, |i: int| ' ') =~= seq![' ']);
    }
    let ghost mid = s@;
    push_decimal(s, n);
    proof {
        let d = decimal(n as nat);
        if n < 10 {
            assert(d.len() == 1);
        } else if n < 100 {
            assert(decimal((n / 10) as nat).len() == 1);
            assert(d.len() == 2);
        } else {
            lemma_decimal_len_ge3(n as nat);
        }
        assert(s@ =~= start + count_field(n as nat));
    }
}

proof fn lemma_decimal_len_ge3(n: nat)
    requires
        n >= 100,
    ensures
        decimal(n).len() >= 3,
    decreases n,
{
    if n / 10 >= 100 {
        lemma_decimal_len_ge3(n / 10);
    } else {
        assert(decimal(n / 10 / 10).len() == 1);
        assert(decimal(n / 10).len() == 2);
    }
    assert(decimal(n) == decimal(n / 10).push(digit_char(n % 10)));
}

} // verus!

verus! {

// ---------------------------------------------------------------------
// Reading decimal numbers, as `str::parse` does for integer types
// ---------------------------------------------------------------------

/// `c` is one of `0`..`9`.
pub open spec fn is_digit(c: char) -> bool {
    '0' <= c && c <= '9'
}

/// The value of the decimal digits `d` (most significant first).
pub open spec fn digits_value(d: Seq<char>) -> int
    decreases d.len(),
{
    if d.len() == 0 {
        0
    } else {
        digits_value(d.drop_last()) * 10 + (d.last() as int - '0' as int)
    }
}

/// Every character of `d` is a digit.
pub open spec fn all_digits(d: Seq<char>) -> bool {
    forall|i: int| 0 <= i < d.len() ==> is_digit(#[trigger] d[i])
}

/// An unsigned number: an optional `+`, then one digit or more, at most `max`.
pub open spec fn parse_unsigned(s: Seq<char>, max: int) -> Option<int> {
    let d = if s.len() > 0 && s[0] == '+' { s.skip(1) } else { s };
    if d.len() > 0 && all_digits(d) && digits_value(d) <= max {
        Some(digits_value(d))
    } else {
        None
    }
}

/// A signed number: `-` and digits for a value down to `min`, or an unsigned number up to `max`.
pub open spec fn parse_signed(s: Seq<char>, min: int, max: int) -> Option<int> {
    if s.len() > 0 && s[0] == '-' {
        let d = s.skip(1);
        if d.len() > 0 && all_digits(d) && -digits_value(d) >= min {
            Some(-digits_value(d))
        } else {
            None
        }
    } else {
        parse_unsigned(s, max)
    }
}

proof fn lemma_digits_value_nonneg(d: Seq<char>)
    requires
        all_digits(d),
    ensures
        digits_value(d) >= 0,
    decreases d.len(),
{
    if d.len() > 0 {
        lemma_digits_value_nonneg(d.drop_last());
    }
}

/// A prefix of digits is worth no more than the whole.
proof fn lemma_digits_value_prefix(d: Seq<char>, k: int)
    requires
        all_digits(d),
        0 <= k <= d.len(),
    ensures
        digits_value(d.take(k)) <= digits_value(d),
    decreases d.len() - k,
{
    if k < d.len() {
        lemma_digits_value_prefix(d, k + 1);
        assert(d.take(k + 1).drop_last() =~= d.take(k));
        lemma_digits_value_nonneg(d.take(k));
    } else {
        assert(d.take(k) =~= d);
    }
}

/// The digits of `c` from position `from` on, read as a number no larger than `max`.
fn read_digits(c: &Vec<char>, from: usize, max: u64) -> (r: Option<u64>)
    requires
        from <= c.len(),
    ensures
        ({
            let d = c@.skip(from as int);
            &&& r == if d.len() > 0 && all_digits(d) && digits_value(d) <= max {
                Some(digits_value(d) as u64)
            } else {
                None
            }
            &&& r matches Some(v) ==> v as int == digits_value(d)
        }),
{
    let n = c.len();
    let ghost d = c@.skip(from as int);
    if from == n {
        return None;
    }
    let mut v: u64 = 0;
    let mut i: usize = from;
    while i < n
        invariant
            n == c.len(),
            from < n,
            from <= i <= n,
            d == c@.skip(from as int),
            all_digits(d.take(i - from)),
            v as int == digits_value(d.take(i - from)),
            v <= max,
        decreases n - i,
    {
        let ch = c[i];
        assert(d[i - from] == ch);
        if ch < '0' || ch > '9' {
            assert(!is_digit(d[i - from]));
            return None;
        }
        let dv: u64 = (ch as u64) - ('0' as u64);
        assert(d.take(i - from + 1).drop_last() =~= d.take(i - from));
        assert(d.take(i - from + 1).last() == ch);
        if v > max / 10 || dv > max - v * 10 {
            proof {
                assert(all_digits(d.take(i - from + 1)));
                if all_digits(d) {
                    lemma_digits_value_prefix(d, i - from + 1);
                }
            }
            return None;
        }
        v = v * 10 + dv;
        i = i + 1;
    }
    assert(d.take(n - from) =~= d);
    Some(v)
}

/// The value of `s` as `str::parse::<u64>` reads it, bounded by `max`.
fn parse_bounded(s: &str, max: u64) -> (r: Option<u64>)
    ensures
        r == match parse_unsigned(s@, max as int) {
            Some(v) => Some(v as u64),
            None => None,
        },
        r matches Some(v) ==> v <= max && parse_unsigned(s@, max as int) == Some(v as int),
{
    let c = to_chars(s);
    let from: usize = if c.len() > 0 && c[0] == '+' { 1 } else { 0 };
    proof {
        if from == 0 {
            assert(c@.skip(0) =~= c@);
        }
    }
    read_digits(&c, from, max)
}

/// `s.parse::<usize>().ok()`.
pub fn parse_usize(s: &str) -> (r: Option<usize>)
    ensures
        r == match parse_unsigned(s@, usize::MAX as int) {
            Some(v) => Some(v as usize),
            None => None,
        },
        r matches Some(x) ==> parse_unsigned(s@, usize::MAX as int) == Some(x as int),
{
    match parse_bounded(s, usize::MAX as u64) {
        Some(v) => {
            assert(v <= usize::MAX);
            Some(v as usize)
        },
        None => None,
    }
}

/// `s.parse::<u32>().ok()`.
pub fn parse_u32(s: &str) -> (r: Option<u32>)
    ensures
        r == match parse_unsigned(s@, u32::MAX as int) {
            Some(v) => Some(v as u32),
            None => None,
        },
        r matches Some(x) ==> parse_unsigned(s@, u32::MAX as int) == Some(x as int),
{
    match parse_bounded(s, u32::MAX as u64) {
        Some(v) => {
            assert(v <= u32::MAX);
            Some(v as u32)
        },
        None => None,
    }
}

/// `s.parse::<i64>().ok()`.
pub fn parse_i64(s: &str) -> (r: Option<i64>)
    ensures
        r == match parse_signed(s@, i64::MIN as int, i64::MAX as int) {
            Some(v) => Some(v as i64),
            None => None,
        },
        r matches Some(x) ==> parse_signed(s@, i64::MIN as int, i64::MAX as int) == Some(x as int),
{
    let c = to_chars(s);
    if c.len() > 0 && c[0] == '-' {
        match read_digits(&c, 1, 9223372036854775808u64) {
            Some(m) => {
                if m == 9223372036854775808u64 {
                    Some(i64::MIN)
                } else {
                    assert(m <= i64::MAX);
                    let k = m as i64;
                    Some(-k)
                }
            },
            None => None,
        }
    } else {
        match parse_bounded(s, i64::MAX as u64) {
            Some(v) => {
                assert(v <= i64::MAX);
                Some(v as i64)
            },
            None => None,
        }
    }
}

} // verus!

verus! {

/// A copy of a list of strings.
pub fn clone_strings(v: &Vec<String>) -> (r: Vec<String>)
    ensures
        views(r@) == views(v@),
{
    let mut r: Vec<String> = Vec::new();
    let n = v.len();
    let mut i: usize = 0;
    while i < n
        invariant
            n == v.len(),
            i <= n,
            views(r@) == views(v@).take(i as int),
        decreases n - i,
    {
        let s = v[i].clone();
        proof {
            lemma_views_push(r@, s);
            assert(views(v@).take(i + 1) =~= views(v@).take(i as int).push(s@));
        }
        r.push(s);
        i = i + 1;
    }
    assert(views(v@).take(n as int) =~= views(v@));
    r
}

/// How many line feeds `s` holds.
pub open spec fn newline_count(s: Seq<char>) -> nat {
    s.filter(|x: char| x == '\n').len()
}

/// The number of line feeds in `s` (what `s.matches("\n").count()` gives).
pub fn count_newlines(s: &str) -> (r: usize)
    ensures
        r == newline_count(s@),
{
    let c = to_chars(s);
    let ghost pred = |x: char| x == '\n';
    let n = c.len();
    let mut k: usize = 0;
    let mut i: usize = 0;
    while i < n
        invariant
            n == c.len(),
            c@ == s@,
            i <= n,
            pred == (|x: char| x == '\n'),
            k == c@.take(i as int).filter(pred).len(),
            k <= i,
        decreases n - i,
    {
        reveal_with_fuel(Seq::<_>::filter, 1);
        assert(c@.take(i + 1).drop_last() =~= c@.take(i as int));
        if c[i] == '\n' {
            k = k + 1;
        }
        i = i + 1;
    }
    assert(c@.take(n as int) =~= c@);
    assert(pred =~= (|x: char| x == '\n'));
    k
}

} // verus!

verus! {

/// Every element of a list occurs in the list joined with any separator.
pub proof fn lemma_join_holds_each(list: Seq<Seq<char>>, sep: Seq<char>, i: int)
    requires
        0 <= i < list.len(),
    ensures
        has_substr(seq_join(list, sep), list[i]),
    decreases list.len(),
{
    let j = seq_join(list, sep);
    if list.len() == 1 {
        assert(occurs_at(j, list[i], 0)) by {
            assert(j.subrange(0, list[0].len() as int) =~= list[0]);
        }
    } else {
        let init = list.drop_last();
        let ji = seq_join(init, sep);
        assert(j == ji + sep + list.last());
        if i == list.len() - 1 {
            let k: int = (ji.len() + sep.len()) as int;
            assert(j.subrange(k, k + list[i].len()) =~= list[i]);
            assert(occurs_at(j, list[i], k));
        } else {
            assert(init[i] == list[i]);
            lemma_join_holds_each(init, sep, i);
            let k = choose|k: int| occurs_at(ji, list[i], k);
            assert(j.subrange(k, k + list[i].len()) =~= ji.subrange(k, k + list[i].len()));
            assert(occurs_at(j, list[i], k));
        }
    }
}

} // verus!
