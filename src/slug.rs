//! The default file name of a new record, derived from its display name.
use vstd::prelude::*;
use crate::text::{chars_of, is_space, is_space_char, string_of};

verus! {

pub open spec fn is_ascii_alnum(c: char) -> bool {
    ('a' <= c && c <= 'z') || ('A' <= c && c <= 'Z') || ('0' <= c && c <= '9')
}

pub open spec fn ascii_lower(c: char) -> char {
    if 'A' <= c && c <= 'Z' {
        ((c as u32) + 32) as char
    } else {
        c
    }
}

/// The slug of `s` before the fallback: ASCII letters and digits kept and
/// lowered, each run of white space, `-` and `_` one `-`, the rest dropped.
pub open spec fn slug_chars(s: Seq<char>) -> Seq<char>
    decreases s.len(),
{
    if s.len() == 0 {
        seq![]
    } else {
        let o = slug_chars(s.drop_last());
        let c = s.last();
        if is_ascii_alnum(c) {
            o.push(ascii_lower(c))
        } else if is_space(c) || c == '-' || c == '_' {
            if o.len() > 0 && o.last() == '-' {
                o
            } else {
                o.push('-')
            }
        } else {
            o
        }
    }
}

/// The slug, or `entry` where nothing is left.
pub open spec fn slug_spec(s: Seq<char>) -> Seq<char> {
    if slug_chars(s).len() == 0 {
        "entry"@
    } else {
        slug_chars(s)
    }
}

fn lower_ascii(c: char) -> (r: char)
    ensures
        r == ascii_lower(c),
{
    if 'A' <= c && c <= 'Z' {
        let b = c as u8;
        let l = (b + 32) as char;
        proof {
            assert(b as u32 == c as u32);
        }
        l
    } else {
        c
    }
}

/// A file-name stem for a record called `name`.
pub fn slugify(name: &str) -> (r: String)
    ensures
        r@ == slug_spec(name@),
{
    let s = chars_of(name);
    let mut out: Vec<char> = Vec::new();
    let mut i: usize = 0;
    while i < s.len()
        invariant
            i <= s.len(),
            out@ == slug_chars(s@.subrange(0, i as int)),
        decreases s.len() - i,
    {
        let c = s[i];
        proof {
            assert(s@.subrange(0, i + 1).drop_last() =~= s@.subrange(0, i as int));
        }
        if ('a' <= c && c <= 'z') || ('A' <= c && c <= 'Z') || ('0' <= c && c <= '9') {
            out.push(lower_ascii(c));
        } else if is_space_char(c) || c == '-' || c == '_' {
            if !(out.len() > 0 && out[out.len() - 1] == '-') {
                out.push('-');
            }
        }
        i = i + 1;
    }
    proof {
        assert(s@.subrange(0, s.len() as int) =~= s@);
    }
    if out.len() == 0 {
        string_of(&chars_of("entry"))
    } else {
        string_of(&out)
    }
}

} // verus!
