use vstd::prelude::*;

use crate::text::{chars_of, string_of};

verus! {

/// `t` occurs in `s` at position `i`.
pub open spec fn matches_at(s: Seq<char>, i: int, t: Seq<char>) -> bool {
    0 <= i && i + t.len() <= s.len() && s.subrange(i, i + t.len()) == t
}

/// The first position at or after `pos` where the non-empty `t` occurs.
pub open spec fn find_from(s: Seq<char>, pos: int, t: Seq<char>) -> Option<int>
    decreases s.len() - pos,
{
    if t.len() == 0 || pos < 0 || pos + t.len() > s.len() {
        None
    } else if matches_at(s, pos, t) {
        Some(pos)
    } else {
        find_from(s, pos + 1, t)
    }
}

/// The first position at or after `start` that holds `c`.
pub open spec fn find_char(s: Seq<char>, start: int, c: char) -> Option<int>
    decreases s.len() - start,
{
    if start < 0 || start >= s.len() {
        None
    } else if s[start] == c {
        Some(start)
    } else {
        find_char(s, start + 1, c)
    }
}

/// The last position before `end` that holds `c`.
pub open spec fn rfind_char(s: Seq<char>, end: int, c: char) -> Option<int>
    decreases end,
{
    if end <= 0 || end > s.len() {
        None
    } else if s[end - 1] == c {
        Some(end - 1)
    } else {
        rfind_char(s, end - 1, c)
    }
}

/// The opening brace of a placeholder whose key starts at `index`: right
/// before the key, or, when a `:` precedes the key, the nearest one before it.
pub open spec fn placeholder_start(s: Seq<char>, index: int, key_len: int) -> Option<int> {
    if index > 0 && index + key_len < s.len() {
        if s[index - 1] == '{' {
            Some(index - 1)
        } else if index > 1 && s[index - 1] == ':' {
            rfind_char(s, index - 1, '{')
        } else {
            None
        }
    } else {
        None
    }
}

/// The closing brace of a placeholder whose key ends before `index + key_len`:
/// right after the key, or, when a `:` follows the key, the nearest one after it.
pub open spec fn placeholder_end(s: Seq<char>, index: int, key_len: int) -> Option<int> {
    let last = index + key_len - 1;
    if s[last + 1] == '}' {
        Some(last + 1)
    } else if last + 2 < s.len() && s[last + 1] == ':' {
        find_char(s, last + 2, '}')
    } else {
        None
    }
}

/// The span from opening to closing brace of the placeholder around the key
/// at `index`, if the key stands in one.
pub open spec fn placeholder(s: Seq<char>, index: int, key_len: int) -> Option<(int, int)> {
    match placeholder_start(s, index, key_len) {
        None => None,
        Some(start) => match placeholder_end(s, index, key_len) {
            None => None,
            Some(end) => Some((start, end)),
        },
    }
}

/// The literal text between the opening brace and the `:` before the key.
pub open spec fn text_before(s: Seq<char>, start: int, index: int) -> Seq<char> {
    if start + 1 < index - 1 {
        s.subrange(start + 1, index - 1)
    } else {
        Seq::empty()
    }
}

/// The literal text between the `:` after the key and the closing brace.
pub open spec fn text_after(s: Seq<char>, index: int, key_len: int, end: int) -> Seq<char> {
    if index + key_len + 1 < end {
        s.subrange(index + key_len + 1, end)
    } else {
        Seq::empty()
    }
}

/// What a placeholder becomes: nothing for an empty value, else the value
/// with the placeholder's literal text around it.
pub open spec fn placeholder_text(
    s: Seq<char>,
    start: int,
    end: int,
    index: int,
    key_len: int,
    value: Seq<char>,
) -> Seq<char> {
    if value.len() == 0 {
        Seq::empty()
    } else {
        text_before(s, start, index) + value + text_after(s, index, key_len, end)
    }
}


/// The template after every placeholder of `key` found at or after `pos` is
/// replaced, scanning left to right and going on after each replacement;
/// beside it, whether anything was replaced.
pub open spec fn replace_from(s: Seq<char>, key: Seq<char>, value: Seq<char>, pos: int) -> (Seq<char>, bool)
    decreases s.len() - pos,
{
    match find_from(s, pos, key) {
        None => (s, false),
        Some(index) => {
            proof {
                lemma_find_from_bounds(s, pos, key);
                lemma_placeholder_bounds(s, index, key.len() as int);
            }
            match placeholder(s, index, key.len() as int) {
                None => replace_from(s, key, value, index + 1),
                Some((start, end)) => {
                    let body = placeholder_text(s, start, end, index, key.len() as int, value);
                    let next = s.subrange(0, start) + body + s.subrange(end + 1, s.len() as int);
                    (replace_from(next, key, value, start + body.len()).0, true)
                },
            }
        },
    }
}

/// The template with every placeholder of `key` replaced by `value`, and
/// whether there was one.
pub open spec fn key_replaced(s: Seq<char>, key: Seq<char>, value: Seq<char>) -> (Seq<char>, bool) {
    replace_from(s, key, value, 0)
}

/// Whether `t` occurs at position `i` of `s`, for any `i`.
pub fn occurs_here(s: &Vec<char>, i: usize, t: &Vec<char>) -> (r: bool)
    ensures
        r == matches_at(s@, i as int, t@),
{
    if i <= s.len() && t.len() <= s.len() - i {
        occurs_at(s, i, t)
    } else {
        false
    }
}

/// Whether `t` occurs at position `i` of `s`.
fn occurs_at(s: &Vec<char>, i: usize, t: &Vec<char>) -> (r: bool)
    requires
        i + t.len() <= s.len(),
    ensures
        r == matches_at(s@, i as int, t@),
{
    let mut j: usize = 0;
    while j < t.len()
        invariant
            i + t.len() <= s.len(),
            j <= t.len(),
            forall|k: int| 0 <= k < j ==> s@[i + k] == t@[k],
        decreases t.len() - j,
    {
        if s[i + j] != t[j] {
            assert(s@.subrange(i as int, i + t.len())[j as int] != t@[j as int]);
            return false;
        }
        j += 1;
    }
    assert(s@.subrange(i as int, i + t.len()) =~= t@);
    true
}

/// The first position at or after `pos` where the non-empty `t` occurs.
pub fn find_seq(s: &Vec<char>, pos: usize, t: &Vec<char>) -> (r: Option<usize>)
    ensures
        r matches Some(i) ==> find_from(s@, pos as int, t@) == Some(i as int),
        r is None ==> find_from(s@, pos as int, t@) is None,
{
    if t.len() == 0 || t.len() > s.len() {
        return None;
    }
    let end = s.len() - t.len() + 1;
    let mut i = pos;
    while i < end
        invariant
            0 < t.len() <= s.len(),
            end == s.len() - t.len() + 1,
            pos <= i,
            find_from(s@, pos as int, t@) == find_from(s@, i as int, t@),
        decreases end - i,
    {
        if occurs_at(s, i, t) {
            return Some(i);
        }
        i += 1;
    }
    None
}

/// The first position at or after `start` that holds `c`.
pub fn find_char_from(s: &Vec<char>, start: usize, c: char) -> (r: Option<usize>)
    ensures
        r matches Some(i) ==> find_char(s@, start as int, c) == Some(i as int),
        r is None ==> find_char(s@, start as int, c) is None,
{
    let mut i = start;
    while i < s.len()
        invariant
            start <= i,
            find_char(s@, start as int, c) == find_char(s@, i as int, c),
        decreases s.len() - i,
    {
        if s[i] == c {
            return Some(i);
        }
        i += 1;
    }
    None
}

/// The last position before `end` that holds `c`.
pub fn rfind_char_before(s: &Vec<char>, end: usize, c: char) -> (r: Option<usize>)
    requires
        end <= s.len(),
    ensures
        r matches Some(i) ==> rfind_char(s@, end as int, c) == Some(i as int),
        r is None ==> rfind_char(s@, end as int, c) is None,
{
    let mut i = end;
    while i > 0
        invariant
            i <= end <= s.len(),
            rfind_char(s@, end as int, c) == rfind_char(s@, i as int, c),
        decreases i,
    {
        if s[i - 1] == c {
            return Some(i - 1);
        }
        i -= 1;
    }
    None
}

/// The span from opening to closing brace of the placeholder around the key
/// of length `key_len` at `key_pos`, if the key stands in one.
pub fn placeholder_span(s: &Vec<char>, key_pos: usize, key_len: usize) -> (r: Option<(usize, usize)>)
    ensures
        r matches Some((a, b)) ==> placeholder(s@, key_pos as int, key_len as int) == Some((a as int, b as int)),
        r is None ==> placeholder(s@, key_pos as int, key_len as int) is None,
{
    let index = key_pos;
    let mut start: usize = 0;
    let mut found = false;
    if index > 0 && index < s.len() && key_len < s.len() - index {
        if s[index - 1] == '{' {
            start = index - 1;
            found = true;
        } else if index > 1 && s[index - 1] == ':' {
            if let Some(i) = rfind_char_before(s, index - 1, '{') {
                start = i;
                found = true;
            }
        }
    }
    if !found {
        return None;
    }
    let last = index + key_len - 1;
    if s[last + 1] == '}' {
        Some((start, last + 1))
    } else if s.len() - last > 2 && s[last + 1] == ':' {
        match find_char_from(s, last + 2, '}') {
            Some(end) => Some((start, end)),
            None => None,
        }
    } else {
        None
    }
}

/// Appends `src[from..to]` to `out`.
fn push_range(out: &mut Vec<char>, src: &Vec<char>, from: usize, to: usize)
    requires
        from <= to <= src.len(),
    ensures
        final(out)@ == old(out)@ + src@.subrange(from as int, to as int),
{
    let mut i = from;
    while i < to
        invariant
            from <= i <= to <= src.len(),
            out@ == old(out)@ + src@.subrange(from as int, i as int),
        decreases to - i,
    {
        out.push(src[i]);
        i += 1;
        assert(out@ =~= old(out)@ + src@.subrange(from as int, i as int));
    }
}

/// Replaces every placeholder of `key` in `s` by `value` (or by nothing when
/// `value` is empty); tells whether there was one.
pub fn replace_key(s: &mut Vec<char>, key: &Vec<char>, value: &Vec<char>) -> (r: bool)
    ensures
        (final(s)@, r) == key_replaced(old(s)@, key@, value@),
{
    let ghost goal = key_replaced(old(s)@, key@, value@);
    let mut replaced = false;
    let mut find_pos: usize = 0;
    loop
        invariant
            replace_from(s@, key@, value@, find_pos as int).0 == goal.0,
            (replaced || replace_from(s@, key@, value@, find_pos as int).1) == goal.1,
            goal == key_replaced(old(s)@, key@, value@),
        ensures
            (s@, replaced) == goal,
        decreases s@.len() - find_pos,
    {
        let index = match find_seq(s, find_pos, key) {
            Some(i) => i,
            None => {
                assert(replace_from(s@, key@, value@, find_pos as int) == (s@, false));
                break;
            },
        };
        proof {
            lemma_find_from_bounds(s@, find_pos as int, key@);
            lemma_placeholder_bounds(s@, index as int, key.len() as int);
            assert(matches_at(s@, index as int, key@));
        }
        let slen = s.len();
        assert(index < slen);
        find_pos = index + 1;
        if let Some((start, end)) = placeholder_span(s, index, key.len()) {
            let ghost old_s = s@;
            assert(end < slen);
            let mut next: Vec<char> = Vec::new();
            push_range(&mut next, s, 0, start);
            if value.len() > 0 {
                if start + 1 < index - 1 {
                    push_range(&mut next, s, start + 1, index - 1);
                }
                push_range(&mut next, value, 0, value.len());
                if index + key.len() + 1 < end {
                    push_range(&mut next, s, index + key.len() + 1, end);
                }
            }
            let body_end = next.len();
            push_range(&mut next, s, end + 1, s.len());
            proof {
                let body = placeholder_text(old_s, start as int, end as int, index as int, key.len() as int, value@);
                assert(value@.subrange(0, value.len() as int) =~= value@);
                assert(old_s.subrange(0, start as int) + body == next@.subrange(0, body_end as int));
                assert(next@ =~= old_s.subrange(0, start as int) + body + old_s.subrange(end + 1, old_s.len() as int));
                assert(body_end == start + body.len());
            }
            *s = next;
            find_pos = body_end;
            replaced = true;
        }
    }
    replaced
}

/// Placeholder search and substitution on a template string. Positions count
/// chars.
pub trait Format: View<V = Seq<char>> {
    /// The first position at or after `pos` where the non-empty `needle` occurs.
    fn find_from_pos(&self, pos: usize, needle: &str) -> (r: Option<usize>)
        ensures
            r matches Some(i) ==> find_from(self@, pos as int, needle@) == Some(i as int),
            r is None ==> find_from(self@, pos as int, needle@) is None,
    ;

    /// The first position at or after `start` that holds the char `needle`.
    fn find_byte(&self, start: usize, needle: u8) -> (r: Option<usize>)
        ensures
            r matches Some(i) ==> find_char(self@, start as int, needle as char) == Some(i as int),
            r is None ==> find_char(self@, start as int, needle as char) is None,
    ;

    /// The last position before `end` that holds the char `needle`.
    fn rfind_byte(&self, end: usize, needle: u8) -> (r: Option<usize>)
        requires
            end <= self@.len(),
        ensures
            r matches Some(i) ==> rfind_char(self@, end as int, needle as char) == Some(i as int),
            r is None ==> rfind_char(self@, end as int, needle as char) is None,
    ;

    /// The braces around the key of length `key_len` at `key_pos`, if it
    /// stands in a placeholder.
    fn key_replaceable_pos(&self, key_pos: usize, key_len: usize) -> (r: Option<(usize, usize)>)
        ensures
            r matches Some((a, b)) ==> placeholder(self@, key_pos as int, key_len as int) == Some(
                (a as int, b as int),
            ),
            r is None ==> placeholder(self@, key_pos as int, key_len as int) is None,
    ;

    /// Replaces every placeholder of `key` by `value`; tells whether there
    /// was one.
    fn key_replace(&mut self, key: &str, value: &str) -> (r: bool)
        ensures
            (final(self)@, r) == key_replaced(old(self)@, key@, value@),
    ;
}

impl Format for String {
    fn find_from_pos(&self, pos: usize, needle: &str) -> (r: Option<usize>) {
        find_seq(&chars_of(self.as_str()), pos, &chars_of(needle))
    }

    fn find_byte(&self, start: usize, needle: u8) -> (r: Option<usize>) {
        find_char_from(&chars_of(self.as_str()), start, needle as char)
    }

    fn rfind_byte(&self, end: usize, needle: u8) -> (r: Option<usize>) {
        rfind_char_before(&chars_of(self.as_str()), end, needle as char)
    }

    fn key_replaceable_pos(&self, key_pos: usize, key_len: usize) -> (r: Option<(usize, usize)>) {
        placeholder_span(&chars_of(self.as_str()), key_pos, key_len)
    }

    fn key_replace(&mut self, key: &str, value: &str) -> (r: bool) {
        let mut s = chars_of(self.as_str());
        let r = replace_key(&mut s, &chars_of(key), &chars_of(value));
        *self = string_of(&s);
        r
    }
}

/// A key that occurs nowhere in a template replaces nothing: the template
/// stays as it is, placeholders of other keys included.
pub proof fn lemma_absent_key_unchanged(s: Seq<char>, key: Seq<char>, value: Seq<char>)
    requires
        forall|i: int| !#[trigger] matches_at(s, i, key),
    ensures
        key_replaced(s, key, value) == (s, false),
{
    lemma_find_from_bounds(s, 0, key);
}

pub proof fn lemma_find_from_bounds(s: Seq<char>, pos: int, t: Seq<char>)
    ensures
        find_from(s, pos, t) matches Some(i) ==> pos <= i && t.len() > 0 && matches_at(s, i, t),
    decreases s.len() - pos,
{
    if !(t.len() == 0 || pos < 0 || pos + t.len() > s.len()) && !matches_at(s, pos, t) {
        lemma_find_from_bounds(s, pos + 1, t);
    }
}

pub proof fn lemma_find_char_bounds(s: Seq<char>, start: int, c: char)
    ensures
        find_char(s, start, c) matches Some(i) ==> start <= i < s.len() && s[i] == c,
    decreases s.len() - start,
{
    if !(start < 0 || start >= s.len()) && s[start] != c {
        lemma_find_char_bounds(s, start + 1, c);
    }
}

pub proof fn lemma_rfind_char_bounds(s: Seq<char>, end: int, c: char)
    ensures
        rfind_char(s, end, c) matches Some(i) ==> 0 <= i < end && s[i] == c,
    decreases end,
{
    if !(end <= 0 || end > s.len()) && s[end - 1] != c {
        lemma_rfind_char_bounds(s, end - 1, c);
    }
}

pub proof fn lemma_placeholder_bounds(s: Seq<char>, index: int, key_len: int)
    ensures
        placeholder(s, index, key_len) matches Some((start, end)) ==> 0 <= start < index && index
            + key_len <= end < s.len(),
{
    lemma_rfind_char_bounds(s, index - 1, '{');
    lemma_find_char_bounds(s, index + key_len + 1, '}');
}

} // verus!
