use vstd::prelude::*;

use crate::error::TodoError;
use crate::text::{chars_of, string_of, trimmed, trimmed_text};

verus! {

/// Mints identifiers from a counter kept as decimal text in a file.
#[derive(Clone, Debug, Default)]
pub struct SequenceGenerator {
    pub required: bool,
    pub file: Option<String>,
}

/// What one draw from the counter gives: the identifier to hand out, and the
/// text to write back to the counter file, if any.
#[derive(Clone, Debug, PartialEq, Eq)]
pub struct NextId {
    pub id: String,
    pub write: Option<String>,
}

/// `c` is an ASCII digit.
pub open spec fn is_digit(c: char) -> bool {
    48 <= c as u32 <= 57
}

/// The number that a run of ASCII digits spells.
pub open spec fn digits_value(t: Seq<char>) -> int
    decreases t.len(),
{
    if t.len() == 0 {
        0
    } else {
        digits_value(t.drop_last()) * 10 + (t.last() as u32 - 48)
    }
}

/// The unsigned 64-bit number that `t` spells: an optional `+`, then one or
/// more ASCII digits, and a value that fits.
pub open spec fn u64_of(t: Seq<char>) -> Option<u64> {
    digits_u64(unsigned_digits(t))
}

/// The digits of an unsigned number: `t` without a leading `+`.
pub open spec fn unsigned_digits(t: Seq<char>) -> Seq<char> {
    if t.len() > 0 && t[0] == '+' {
        t.subrange(1, t.len() as int)
    } else {
        t
    }
}

/// The unsigned 64-bit number that a non-empty run of ASCII digits spells,
/// if it fits.
pub open spec fn digits_u64(d: Seq<char>) -> Option<u64> {
    if d.len() > 0 && (forall|i: int| 0 <= i < d.len() ==> is_digit(#[trigger] d[i])) && digits_value(
        d,
    ) <= u64::MAX {
        Some(digits_value(d) as u64)
    } else {
        None
    }
}

/// The decimal digit for `d` below ten.
pub open spec fn digit_char(d: int) -> char {
    (d + 48) as u8 as char
}

/// The decimal text of `n`, without leading zeros.
pub open spec fn dec_text(n: nat) -> Seq<char>
    decreases n,
{
    if n < 10 {
        seq![digit_char(n as int)]
    } else {
        dec_text(n / 10).push(digit_char((n % 10) as int))
    }
}

proof fn lemma_digits_prefix(t: Seq<char>, i: int)
    requires
        0 <= i <= t.len(),
        forall|k: int| 0 <= k < t.len() ==> is_digit(#[trigger] t[k]),
    ensures
        0 <= digits_value(t.subrange(0, i)) <= digits_value(t),
    decreases t.len(),
{
    if i < t.len() {
        let d = t.drop_last();
        assert forall|k: int| 0 <= k < d.len() implies is_digit(#[trigger] d[k]) by {
            assert(d[k] == t[k]);
        }
        lemma_digits_prefix(d, i);
        assert(d.subrange(0, i) =~= t.subrange(0, i));
        lemma_digits_prefix(d, d.len() as int);
        assert(d.subrange(0, d.len() as int) =~= d);
    } else {
        assert(t.subrange(0, i) =~= t);
        if t.len() > 0 {
            let d = t.drop_last();
            assert forall|k: int| 0 <= k < d.len() implies is_digit(#[trigger] d[k]) by {
                assert(d[k] == t[k]);
            }
            lemma_digits_prefix(d, d.len() as int);
            assert(d.subrange(0, d.len() as int) =~= d);
        }
    }
}

/// Reads `s` as an unsigned 64-bit number in the manner of `u64_of`.
fn parse_u64(s: &Vec<char>) -> (r: Option<u64>)
    ensures
        r == u64_of(s@),
{
    let from: usize = if s.len() > 0 && s[0] == '+' { 1 } else { 0 };
    let ghost d = unsigned_digits(s@);
    assert(d =~= s@.subrange(from as int, s@.len() as int));
    if from >= s.len() {
        return None;
    }
    let mut v: u64 = 0;
    let mut i = from;
    while i < s.len()
        invariant
            from <= i <= s.len(),
            d == s@.subrange(from as int, s@.len() as int),
            d == unsigned_digits(s@),
            forall|k: int| from <= k < i ==> is_digit(#[trigger] s@[k]),
            v as int == digits_value(s@.subrange(from as int, i as int)),
        decreases s.len() - i,
    {
        let c = s[i];
        let n = c as u32;
        if n < 48 || n > 57 {
            assert(d[i - from] == s@[i as int]);
            assert(!is_digit(d[i - from]));
            assert(!(forall|k: int| 0 <= k < d.len() ==> is_digit(#[trigger] d[k])));
            assert(u64_of(s@) is None);
            return None;
        }
        let ghost pre = s@.subrange(from as int, i as int);
        assert(s@.subrange(from as int, i + 1).drop_last() =~= pre);
        let step = match v.checked_mul(10) {
            Some(x) => x.checked_add((n - 48) as u64),
            None => None,
        };
        match step {
            Some(x) => {
                v = x;
            },
            None => {
                proof {
                    let last = s@.subrange(from as int, i + 1);
                    assert(last.last() == c);
                    assert(digits_value(last) == v * 10 + (n - 48));
                    assert(digits_value(last) > u64::MAX);
                    if forall|k: int| 0 <= k < d.len() ==> is_digit(#[trigger] d[k]) {
                        lemma_digits_prefix(d, i - from + 1);
                        assert(d.subrange(0, i - from + 1) =~= last);
                        assert(digits_value(d) > u64::MAX);
                    }
                    assert(u64_of(s@) is None);
                }
                return None;
            },
        }
        i += 1;
    }
    assert(s@.subrange(from as int, i as int) =~= d);
    Some(v)
}

/// Appends the decimal text of `n` to `out`.
fn push_decimal(out: &mut Vec<char>, n: u64)
    ensures
        final(out)@ == old(out)@ + dec_text(n as nat),
    decreases n,
{
    if n >= 10 {
        push_decimal(out, n / 10);
    }
    let d: u8 = (n % 10) as u8;
    out.push((d + 48) as char);
    proof {
        if n >= 10 {
            assert(dec_text(n as nat) == dec_text((n / 10) as nat).push(digit_char((n % 10) as int)));
        } else {
            assert(dec_text(n as nat) == seq![digit_char(n as int)]);
        }
    }
    assert(out@ =~= old(out)@ + dec_text(n as nat));
}

/// The decimal text of `n`.
pub fn decimal(n: u64) -> (r: String)
    ensures
        r@ == dec_text(n as nat),
{
    let mut v: Vec<char> = Vec::new();
    push_decimal(&mut v, n);
    assert(v@ =~= dec_text(n as nat));
    string_of(&v)
}

impl SequenceGenerator {
    /// Draws the next identifier, given what the counter file holds (`None`
    /// when it could not be opened). Without a file, or with one that cannot
    /// be read, the identifier is empty unless one is required. Otherwise the
    /// trimmed text is the identifier, and the counter file is to hold the
    /// number after it.
    pub fn next(&self, contents: Option<&str>) -> (r: Result<NextId, TodoError>)
        ensures
            self.file is None ==> if self.required {
                r matches Err(TodoError::FileNotSpecified)
            } else {
                r matches Ok(n) && n.id@.len() == 0 && n.write is None
            },
            self.file is Some && contents is None ==> if self.required {
                r matches Err(TodoError::FileUnreadable { path: p }) && p@ == self.file.unwrap()@
            } else {
                r matches Ok(n) && n.id@.len() == 0 && n.write is None
            },
            self.file is Some && contents is Some ==> ({
                let c = contents.unwrap();
                let t = trimmed(c@, 0, c@.len() as int);
                match u64_of(t) {
                    None => r matches Err(TodoError::InvalidNumber { text }) && text@ == t,
                    Some(v) => if v == u64::MAX {
                        r matches Err(TodoError::CounterOverflow { text }) && text@ == t
                    } else {
                        r matches Ok(n) && n.id@ == t && n.write is Some && n.write.unwrap()@ == dec_text(
                            (v + 1) as nat,
                        )
                    },
                }
            }),
    {
        match &self.file {
            None => {
                if self.required {
                    Err(TodoError::FileNotSpecified)
                } else {
                    Ok(NextId { id: String::new(), write: None })
                }
            },
            Some(path) => match contents {
                None => {
                    if self.required {
                        Err(TodoError::FileUnreadable { path: path.clone() })
                    } else {
                        Ok(NextId { id: String::new(), write: None })
                    }
                },
                Some(c) => {
                    let chars = chars_of(c);
                    let id = trimmed_text(&chars, 0, chars.len());
                    let digits = chars_of(id.as_str());
                    match parse_u64(&digits) {
                        None => Err(TodoError::InvalidNumber { text: id }),
                        Some(v) => {
                            if v == u64::MAX {
                                Err(TodoError::CounterOverflow { text: id })
                            } else {
                                Ok(NextId { id, write: Some(decimal(v + 1)) })
                            }
                        },
                    }
                },
            },
        }
    }
}

} // verus!
