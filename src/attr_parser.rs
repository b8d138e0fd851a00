use vstd::prelude::*;

use crate::attrs::Attrs;
use crate::format::{
    find_char, find_char_from, lemma_find_char_bounds, lemma_rfind_char_bounds, rfind_char,
    rfind_char_before,
};
use crate::text::{chars_of, is_white, string_of, trim_hi, trim_lo, trimmed, trimmed_text, white};

verus! {

/// Reads and writes attribute lines of the form `#[key: value]`.
pub struct AttrParser {}

/// The line that records `value` under `key`.
pub open spec fn encoded(key: Seq<char>, value: Seq<char>) -> Seq<char> {
    seq!['#', '['] + key + seq![':', ' '] + value + seq![']']
}

/// The position of the `:` that ends the key of an attribute line: the line
/// is `#[`, a non-empty key, `:`, a value and `]`, and the key runs to the
/// last `:` that leaves it so.
pub open spec fn attr_colon(line: Seq<char>) -> Option<int> {
    if line.len() >= 5 && line[0] == '#' && line[1] == '[' && line.last() == ']' {
        match rfind_char(line, line.len() - 1, ':') {
            Some(c) => if c >= 3 {
                Some(c)
            } else {
                None
            },
            None => None,
        }
    } else {
        None
    }
}

/// An expression marker stands at `p`: white space, `=`, white space, `if`,
/// white space, and at least one more char.
pub open spec fn expr_marker_at(s: Seq<char>, p: int) -> bool {
    0 <= p && p + 7 <= s.len() && is_white(s[p]) && s[p + 1] == '=' && is_white(s[p + 2]) && s[p
        + 3] == 'i' && s[p + 4] == 'f' && is_white(s[p + 5])
}

/// The last position before `end` where an expression marker stands.
pub open spec fn last_marker(s: Seq<char>, end: int) -> Option<int>
    decreases end,
{
    if end <= 0 {
        None
    } else if expr_marker_at(s, end - 1) {
        Some(end - 1)
    } else {
        last_marker(s, end - 1)
    }
}


/// The texts of a list of key and value pairs.
pub open spec fn pairs_view(v: Seq<(String, String)>) -> Seq<(Seq<char>, Seq<char>)> {
    v.map_values(|p: (String, String)| (p.0@, p.1@))
}

/// The key and value of an attribute line, both trimmed.
pub open spec fn attr_of(line: Seq<char>) -> Option<(Seq<char>, Seq<char>)> {
    match attr_colon(line) {
        Some(c) => Some((trimmed(line, 2, c), trimmed(line, c + 1, line.len() - 1))),
        None => None,
    }
}

/// Where the line that starts at `p` ends: after its newline, or at the end
/// of the text.
pub open spec fn line_end(s: Seq<char>, p: int) -> int {
    match find_char(s, p, '\n') {
        Some(i) => i + 1,
        None => s.len() as int,
    }
}

/// Counts brackets along `s[i..end]`, starting from `open` unclosed ones:
/// gives the count at `end`, or the position where the count drops to zero.
pub open spec fn bracket_scan(s: Seq<char>, i: int, end: int, open: int) -> (int, Option<int>)
    decreases end - i,
{
    if i >= end {
        (open, None)
    } else if s[i] == '[' {
        bracket_scan(s, i + 1, end, open + 1)
    } else if s[i] == ']' {
        if open - 1 == 0 {
            (0, Some(i))
        } else {
            bracket_scan(s, i + 1, end, open - 1)
        }
    } else {
        bracket_scan(s, i + 1, end, open)
    }
}

/// The attributes read from the text from `p` on, line by line. A line
/// that starts with `#[`, or any line while an attribute is open, is
/// collected up to the bracket that closes the attribute; the rest of that
/// line is ignored. A collected attribute that is not an attribute line
/// is dropped.
pub open spec fn read_from(
    s: Seq<char>,
    p: int,
    open: int,
    attr: Seq<char>,
    acc: Seq<(Seq<char>, Seq<char>)>,
) -> Seq<(Seq<char>, Seq<char>)>
    decreases s.len() - p,
{
    if p < 0 || p >= s.len() {
        acc
    } else {
        proof {
            lemma_find_char_bounds(s, p, '\n');
        }
        let e = line_end(s, p);
        if e <= p {
            acc
        } else if (e - p >= 2 && s[p] == '#' && s[p + 1] == '[') || attr.len() > 0 {
            match bracket_scan(s, p, e, open).1 {
                Some(i) => {
                    let a = attr + s.subrange(p, i + 1);
                    let acc2 = match attr_of(a) {
                        Some(kv) => acc.push(kv),
                        None => acc,
                    };
                    read_from(s, e, 0, Seq::empty(), acc2)
                },
                None => read_from(s, e, bracket_scan(s, p, e, open).0, attr + s.subrange(p, e), acc),
            }
        } else {
            read_from(s, e, open, attr, acc)
        }
    }
}

/// The plain part of a value: the text before its last expression marker,
/// trimmed; the whole value when it has none.
pub open spec fn plain_part(v: Seq<char>) -> Seq<char> {
    match last_marker(v, v.len() as int) {
        None => v,
        Some(p) => trimmed(v, 0, p),
    }
}

proof fn lemma_trim_lo_shift(s: Seq<char>, a: int, b: int, i: int)
    requires
        0 <= a <= b <= s.len(),
        0 <= i <= b - a,
    ensures
        trim_lo(s, a + i, b) == a + trim_lo(s.subrange(a, b), i, b - a),
    decreases b - a - i,
{
    if i < b - a {
        assert(s.subrange(a, b)[i] == s[a + i]);
        lemma_trim_lo_shift(s, a, b, i + 1);
    }
}

proof fn lemma_trim_hi_shift(s: Seq<char>, a: int, b: int, i: int, j: int)
    requires
        0 <= a <= b <= s.len(),
        0 <= i <= j <= b - a,
    ensures
        trim_hi(s, a + i, a + j) == a + trim_hi(s.subrange(a, b), i, j),
    decreases j - i,
{
    if i < j {
        assert(s.subrange(a, b)[j - 1] == s[a + j - 1]);
        lemma_trim_hi_shift(s, a, b, i, j - 1);
    }
}

/// Trimming a stretch of a text is trimming that stretch on its own.
pub proof fn lemma_trimmed_sub(s: Seq<char>, a: int, b: int)
    requires
        0 <= a <= b <= s.len(),
    ensures
        trimmed(s, a, b) == trimmed(s.subrange(a, b), 0, b - a),
{
    let t = s.subrange(a, b);
    lemma_trim_lo_shift(s, a, b, 0);
    let lo = trim_lo(t, 0, b - a);
    lemma_trim_lo_bounds(t, 0, b - a);
    lemma_trim_hi_shift(s, a, b, lo, b - a);
    lemma_trim_hi_bounds(t, lo, b - a);
    assert(trimmed(s, a, b) =~= trimmed(t, 0, b - a));
}

proof fn lemma_trim_lo_bounds(s: Seq<char>, a: int, b: int)
    requires
        a <= b,
    ensures
        a <= trim_lo(s, a, b) <= b,
    decreases b - a,
{
    if a < b && is_white(s[a]) {
        lemma_trim_lo_bounds(s, a + 1, b);
    }
}

proof fn lemma_trim_hi_bounds(s: Seq<char>, a: int, b: int)
    requires
        a <= b,
    ensures
        a <= trim_hi(s, a, b) <= b,
    decreases b - a,
{
    if a < b && is_white(s[b - 1]) {
        lemma_trim_hi_bounds(s, a, b - 1);
    }
}

proof fn lemma_rfind_skip(s: Seq<char>, m: int, end: int, c: char)
    requires
        0 <= m <= end <= s.len(),
        forall|i: int| m <= i < end ==> s[i] != c,
    ensures
        rfind_char(s, end, c) == rfind_char(s, m, c),
    decreases end - m,
{
    if m < end {
        lemma_rfind_skip(s, m, end - 1, c);
    }
}

/// A line written by `encode_attr` reads back as its key and value, both
/// trimmed, when the key is not empty and the value holds no `:`.
pub proof fn lemma_encoded_reads_back(key: Seq<char>, value: Seq<char>)
    requires
        key.len() > 0,
        !value.contains(':'),
    ensures
        attr_of(encoded(key, value)) == Some(
            (trimmed(key, 0, key.len() as int), trimmed(value, 0, value.len() as int)),
        ),
{
    let line = encoded(key, value);
    let c: int = 2 + key.len() as int;
    let n = line.len() as int;
    assert(n == key.len() + value.len() + 5);
    assert(line[0] == '#' && line[1] == '[' && line.last() == ']');
    assert(line[c] == ':');
    assert(line[c + 1] == ' ');
    assert forall|i: int| c + 1 <= i < n - 1 implies line[i] != ':' by {
        if i > c + 1 {
            assert(line[i] == value[i - c - 2]);
            if line[i] == ':' {
                assert(value.contains(':'));
            }
        }
    }
    lemma_rfind_skip(line, c + 1, n - 1, ':');
    assert(rfind_char(line, c + 1, ':') == Some(c));
    assert(attr_colon(line) == Some(c));
    assert(line.subrange(2, c) =~= key);
    lemma_trimmed_sub(line, 2, c);
    assert(trim_lo(line, c + 1, n - 1) == trim_lo(line, c + 2, n - 1));
    assert(trimmed(line, c + 1, n - 1) == trimmed(line, c + 2, n - 1));
    assert(line.subrange(c + 2, n - 1) =~= value);
    lemma_trimmed_sub(line, c + 2, n - 1);
}

impl AttrParser {
    pub fn new() -> (r: AttrParser) {
        AttrParser {  }
    }

    pub fn encode_attr(key: &str, value: &str) -> (r: String)
        ensures
            r@ == encoded(key@, value@),
    {
        let k = chars_of(key);
        let v = chars_of(value);
        let mut out: Vec<char> = Vec::new();
        out.push('#');
        out.push('[');
        let mut i: usize = 0;
        while i < k.len()
            invariant
                i <= k.len(),
                out@ == seq!['#', '['] + k@.subrange(0, i as int),
            decreases k.len() - i,
        {
            out.push(k[i]);
            i += 1;
            assert(out@ =~= seq!['#', '['] + k@.subrange(0, i as int));
        }
        out.push(':');
        out.push(' ');
        let ghost head = out@;
        let mut j: usize = 0;
        while j < v.len()
            invariant
                j <= v.len(),
                out@ == head + v@.subrange(0, j as int),
            decreases v.len() - j,
        {
            out.push(v[j]);
            j += 1;
            assert(out@ =~= head + v@.subrange(0, j as int));
        }
        out.push(']');
        assert(k@.subrange(0, k@.len() as int) =~= k@);
        assert(v@.subrange(0, v@.len() as int) =~= v@);
        assert(out@ =~= encoded(key@, value@));
        string_of(&out)
    }

    /// The key and value of an attribute line, both trimmed.
    pub fn parse_attr(&self, line: &str) -> (r: Option<(String, String)>)
        ensures
            match attr_colon(line@) {
                None => r is None,
                Some(c) => r is Some && r.unwrap().0@ == trimmed(line@, 2, c) && r.unwrap().1@
                    == trimmed(line@, c + 1, line@.len() - 1),
            },
    {
        let s = chars_of(line);
        let n = s.len();
        if n >= 5 && s[0] == '#' && s[1] == '[' && s[n - 1] == ']' {
            proof {
                lemma_rfind_char_bounds(s@, n - 1, ':');
            }
            match rfind_char_before(&s, n - 1, ':') {
                Some(c) => {
                    if c >= 3 {
                        let key = trimmed_text(&s, 2, c);
                        let value = trimmed_text(&s, c + 1, n - 1);
                        Some((key, value))
                    } else {
                        None
                    }
                },
                None => None,
            }
        } else {
            None
        }
    }

    /// Reads an attribute line and, if it is one, sets the attribute; gives
    /// the value that it replaces.
    pub fn parse_and_set_attr(&self, line: &str, attrs: &mut Attrs) -> (r: Option<String>)
        requires
            old(attrs).wf(),
        ensures
            final(attrs).wf(),
            match attr_colon(line@) {
                None => r is None && *final(attrs) == *old(attrs),
                Some(c) => {
                    let k = trimmed(line@, 2, c);
                    let v = trimmed(line@, c + 1, line@.len() - 1);
                    &&& final(attrs).value_map() == old(attrs).value_map().insert(old(attrs).resolve(k), v)
                    &&& final(attrs).alias_map() == old(attrs).alias_map()
                    &&& final(attrs).pinned() == old(attrs).pinned()
                    &&& final(attrs).key_list() == crate::attrs::touched(
                        old(attrs).key_list(),
                        old(attrs).pinned(),
                        old(attrs).resolve(k),
                    )
                    &&& match r {
                        Some(p) => old(attrs).value_map().contains_key(old(attrs).resolve(k))
                            && p@ == old(attrs).value_map()[old(attrs).resolve(k)],
                        None => !old(attrs).value_map().contains_key(old(attrs).resolve(k)),
                    }
                },
            },
    {
        match self.parse_attr(line) {
            Some((key, value)) => attrs.set_attr_value(key.as_str(), value.as_str()),
            None => None,
        }
    }

    /// The attributes that a text records, in order.
    pub fn read_attrs(&self, source: &str) -> (r: Vec<(String, String)>)
        ensures
            pairs_view(r@) == read_from(source@, 0, 0, Seq::empty(), Seq::empty()),
    {
        let s = chars_of(source);
        let n = s.len();
        let mut out: Vec<(String, String)> = Vec::new();
        let mut attr: Vec<char> = Vec::new();
        let mut open: usize = 0;
        let mut p: usize = 0;
        let ghost goal = read_from(s@, 0, 0, Seq::empty(), Seq::empty());
        assert(pairs_view(out@) =~= Seq::empty());
        assert(attr@ =~= Seq::<char>::empty());
        while p < n
            invariant
                n == s.len(),
                s@ == source@,
                p <= n,
                open <= p,
                attr@.len() == 0 ==> open == 0,
                attr@.len() > 0 ==> open >= 1,
                goal == read_from(s@, 0, 0, Seq::empty(), Seq::empty()),
                read_from(s@, p as int, open as int, attr@, pairs_view(out@)) == goal,
            decreases n - p,
        {
            proof {
                lemma_find_char_bounds(s@, p as int, '\n');
            }
            let e = match find_char_from(&s, p, '\n') {
                Some(i) => i + 1,
                None => n,
            };
            let starts = e - p >= 2 && s[p] == '#' && s[p + 1] == '[';
            if starts || attr.len() > 0 {
                let ghost open0 = open as int;
                let mut i = p;
                let mut cnt = open;
                let mut close_at: Option<usize> = None;
                while i < e
                    invariant_except_break
                        close_at is None,
                    invariant
                        p < e <= n,
                        n == s.len(),
                        p <= i <= e,
                        cnt <= i,
                        starts == (e - p >= 2 && s@[p as int] == '#' && s@[p + 1] == '['),
                        cnt >= 1 || (attr@.len() == 0 && starts && i <= p + 1),
                        bracket_scan(s@, p as int, e as int, open0) == bracket_scan(
                            s@,
                            i as int,
                            e as int,
                            cnt as int,
                        ),
                    ensures
                        close_at matches Some(c) ==> p <= c < e && bracket_scan(s@, p as int, e as int, open0)
                            == (0int, Some(c as int)),
                        close_at is None ==> cnt >= 1 && bracket_scan(s@, p as int, e as int, open0) == (
                            cnt as int,
                            None::<int>,
                        ),
                        cnt <= e,
                    decreases e - i,
                {
                    if s[i] == '[' {
                        cnt += 1;
                    } else if s[i] == ']' {
                        if cnt == 1 {
                            close_at = Some(i);
                            break;
                        }
                        cnt -= 1;
                    }
                    i += 1;
                }
                let ghost line_part = s@.subrange(p as int, if close_at is Some {
                    close_at.unwrap() + 1
                } else {
                    e as int
                });
                let stop = match close_at {
                    Some(c) => c + 1,
                    None => e,
                };
                let ghost before = attr@;
                let mut k = p;
                while k < stop
                    invariant
                        p <= k <= stop <= n,
                        n == s.len(),
                        attr@ == before + s@.subrange(p as int, k as int),
                    decreases stop - k,
                {
                    attr.push(s[k]);
                    k += 1;
                    assert(attr@ =~= before + s@.subrange(p as int, k as int));
                }
                match close_at {
                    Some(_) => {
                        let text = string_of(&attr);
                        let ghost acc = pairs_view(out@);
                        match self.parse_attr(text.as_str()) {
                            Some(kv) => {
                                out.push(kv);
                                assert(pairs_view(out@) =~= acc.push((kv.0@, kv.1@)));
                            },
                            None => {},
                        }
                        attr.clear();
                        open = 0;
                    },
                    None => {
                        open = cnt;
                    },
                }
            } else {
            }
            p = e;
        }
        out
    }

    /// Splits a value into its plain part and a trailing `if` expression:
    /// at the last expression marker, both parts trimmed. A value without a
    /// marker comes back whole.
    pub fn parse_value(&self, value: &str) -> (r: (String, Option<String>))
        ensures
            match last_marker(value@, value@.len() as int) {
                None => r.0@ == value@ && r.1 is None,
                Some(p) => r.0@ == trimmed(value@, 0, p) && r.1 is Some && r.1.unwrap()@ == trimmed(
                    value@,
                    p + 3,
                    value@.len() as int,
                ),
            },
    {
        let s = chars_of(value);
        let mut end = s.len();
        while end > 0
            invariant
                s@ == value@,
                end <= s.len(),
                last_marker(s@, s@.len() as int) == last_marker(s@, end as int),
            decreases end,
        {
            let p = end - 1;
            if s.len() >= 7 && p <= s.len() - 7 && white(s[p]) && s[p + 1] == '=' && white(s[p + 2])
                && s[p + 3] == 'i' && s[p + 4] == 'f' && white(s[p + 5]) {
                assert(expr_marker_at(s@, p as int));
                assert(last_marker(s@, end as int) == Some(p as int));
                let plain = trimmed_text(&s, 0, p);
                let expr = trimmed_text(&s, p + 3, s.len());
                return (plain, Some(expr));
            }
            end = p;
        }
        (value.to_owned(), None)
    }
}

} // verus!
