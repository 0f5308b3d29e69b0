//! Character classes, case folding, and whitespace trimming for guess input.
//!
//! The game is case-insensitive over the ASCII letters: every secret word and
//! every guess is folded to upper case before comparison. Raw player input is
//! trimmed of surrounding whitespace before it is validated.

use vstd::prelude::*;

verus! {

/// True of the ASCII upper-case letters 'A'..'Z'.
pub open spec fn is_upper_alpha(c: char) -> bool {
    65 <= c as u32 && c as u32 <= 90
}

/// True of the ASCII lower-case letters 'a'..'z'.
pub open spec fn is_lower_alpha(c: char) -> bool {
    97 <= c as u32 && c as u32 <= 122
}

/// True of the ASCII letters, either case.
pub open spec fn is_alpha(c: char) -> bool {
    is_upper_alpha(c) || is_lower_alpha(c)
}

/// True of the ASCII whitespace characters (space, tab, line feed,
/// vertical tab, form feed, carriage return).
pub open spec fn is_space(c: char) -> bool {
    c as u32 == 32 || c as u32 == 9 || c as u32 == 10 || c as u32 == 11 || c as u32 == 12
        || c as u32 == 13
}

/// The canonical case of a character: an ASCII lower-case letter becomes the
/// corresponding upper-case letter; every other character is unchanged.
pub open spec fn to_upper(c: char) -> char {
    if is_lower_alpha(c) {
        ((c as u32 - 32) as u8) as char
    } else {
        c
    }
}

/// `s` with its leading whitespace removed.
pub open spec fn trim_front(s: Seq<char>) -> Seq<char>
    decreases s.len(),
{
    if s.len() > 0 && is_space(s[0]) {
        trim_front(s.subrange(1, s.len() as int))
    } else {
        s
    }
}

/// `s` with its trailing whitespace removed.
pub open spec fn trim_back(s: Seq<char>) -> Seq<char>
    decreases s.len(),
{
    if s.len() > 0 && is_space(s[s.len() - 1]) {
        trim_back(s.subrange(0, s.len() - 1))
    } else {
        s
    }
}

/// `s` with both leading and trailing whitespace removed.
pub open spec fn trimmed(s: Seq<char>) -> Seq<char> {
    trim_back(trim_front(s))
}

/// Folding to upper case keeps a letter a letter and is idempotent.
pub proof fn lemma_to_upper_properties(c: char)
    ensures
        is_alpha(c) <==> is_upper_alpha(to_upper(c)),
        to_upper(to_upper(c)) == to_upper(c),
{
}

/// Distinct characters have distinct code points.
pub proof fn lemma_char_code_injective(a: char, b: char)
    requires
        a as u32 == b as u32,
    ensures
        a == b,
{
    vstd::utf8::char_u32_cast(a, a as u32);
    vstd::utf8::char_u32_cast(b, b as u32);
}

/// The characters of `s`, in order.
pub fn chars_of(s: &str) -> (r: Vec<char>)
    ensures
        r@ == s@,
{
    let n = s.unicode_len();
    let mut r: Vec<char> = Vec::new();
    let mut i: usize = 0;
    while i < n
        invariant
            i <= n,
            n == s@.len(),
            r@ == s@.subrange(0, i as int),
        decreases n - i,
    {
        let c = s.get_char(i);
        r.push(c);
        proof {
            assert(s@.subrange(0, i + 1) =~= s@.subrange(0, i as int).push(s@[i as int]));
        }
        i += 1;
    }
    proof {
        assert(r@ =~= s@);
    }
    r
}

/// Whether `c` is an ASCII letter.
pub fn is_alpha_char(c: char) -> (r: bool)
    ensures
        r == is_alpha(c),
{
    let n = c as u32;
    (65 <= n && n <= 90) || (97 <= n && n <= 122)
}

fn is_space_char(c: char) -> (r: bool)
    ensures
        r == is_space(c),
{
    let n = c as u32;
    n == 32 || (9 <= n && n <= 13)
}

/// The canonical (upper-case) form of `c`.
pub fn upper_char(c: char) -> (r: char)
    ensures
        r == to_upper(c),
{
    let n = c as u32;
    if 97 <= n && n <= 122 {
        ((n - 32) as u8) as char
    } else {
        c
    }
}

/// `v` with surrounding whitespace removed.
pub fn trim_chars(v: &Vec<char>) -> (r: Vec<char>)
    ensures
        r@ == trimmed(v@),
{
    let len = v.len();
    let ghost whole = v@;

    proof {
        assert(whole.subrange(0, len as int) =~= whole);
    }
    let mut start: usize = 0;
    while start < len && is_space_char(v[start])
        invariant
            start <= len,
            len == whole.len(),
            whole == v@,
            trim_front(whole) == trim_front(whole.subrange(start as int, len as int)),
        decreases len - start,
    {
        proof {
            let t = whole.subrange(start as int, len as int);
            assert(t[0] == whole[start as int]);
            assert(t.subrange(1, t.len() as int) =~= whole.subrange(start + 1, len as int));
        }
        start += 1;
    }
    proof {
        let t = whole.subrange(start as int, len as int);
        if start < len {
            assert(t[0] == whole[start as int]);
        }
        assert(trim_front(t) == t);
        assert(trim_front(whole) == whole.subrange(start as int, len as int));
    }

    let mut end: usize = len;
    while end > start && is_space_char(v[end - 1])
        invariant
            start <= end <= len,
            len == whole.len(),
            whole == v@,
            trim_front(whole) == whole.subrange(start as int, len as int),
            trim_back(whole.subrange(start as int, len as int)) == trim_back(
                whole.subrange(start as int, end as int),
            ),
        decreases end,
    {
        proof {
            let t = whole.subrange(start as int, end as int);
            assert(t[t.len() - 1] == whole[end - 1]);
            assert(t.subrange(0, t.len() - 1) =~= whole.subrange(start as int, end - 1));
        }
        end -= 1;
    }
    proof {
        let t = whole.subrange(start as int, end as int);
        if end > start {
            assert(t[t.len() - 1] == whole[end - 1]);
        }
        assert(trim_back(t) == t);
        assert(trimmed(whole) == whole.subrange(start as int, end as int));
    }

    let mut r: Vec<char> = Vec::new();
    proof {
        assert(Seq::<char>::empty() =~= whole.subrange(start as int, start as int));
    }
    let mut i: usize = start;
    while i < end
        invariant
            start <= i <= end <= len,
            len == whole.len(),
            whole == v@,
            r@ == whole.subrange(start as int, i as int),
        decreases end - i,
    {
        let c = v[i];
        r.push(c);
        proof {
            assert(whole.subrange(start as int, i + 1) =~= whole.subrange(
                start as int,
                i as int,
            ).push(whole[i as int]));
        }
        i += 1;
    }
    proof {
        assert(r@ =~= trimmed(whole));
    }
    r
}

/// A copy of a vector of characters.
pub fn copy_chars(v: &Vec<char>) -> (r: Vec<char>)
    ensures
        r@ == v@,
{
    let mut r: Vec<char> = Vec::new();
    let mut i: usize = 0;
    while i < v.len()
        invariant
            i <= v.len(),
            r@ == v@.subrange(0, i as int),
        decreases v.len() - i,
    {
        let c = v[i];
        r.push(c);
        proof {
            assert(v@.subrange(0, i + 1) =~= v@.subrange(0, i as int).push(v@[i as int]));
        }
        i += 1;
    }
    proof {
        assert(r@ =~= v@);
    }
    r
}

} // verus!
