//! String helpers: truncation, whitespace removal and symbol validation.

use vstd::prelude::*;

verus! {

use vstd::string::is_ascii;
use vstd::string::is_ascii_spec_bytes;
use vstd::string::StringSliceAdditionalSpecFns;
use vstd::string::StrSliceExecFns;
use vstd::string::StringExecFns;

/// Whether a character counts as Unicode whitespace.
pub uninterp spec fn is_whitespace_char(c: char) -> bool;

/// Whether a character counts as Unicode alphanumeric.
pub uninterp spec fn is_alnum_char(c: char) -> bool;

/// Relies on char::is_whitespace: the classification depends on the
/// character alone.
#[verifier::external_body]
fn char_is_whitespace(c: char) -> (r: bool)
    ensures
        r == is_whitespace_char(c),
{
    c.is_whitespace()
}

/// Relies on char::is_alphanumeric: the classification depends on the
/// character alone.
#[verifier::external_body]
fn char_is_alphanumeric(c: char) -> (r: bool)
    ensures
        r == is_alnum_char(c),
{
    c.is_alphanumeric()
}

/// Relies on alloc's String::push: appends exactly one character.
#[verifier::external_body]
pub(crate) fn push_char(s: &mut String, c: char)
    ensures
        final(s)@ == old(s)@.push(c),
{
    s.push(c);
}

/// Caps an ASCII string at `max_len` bytes: short strings come back whole,
/// longer ones are cut to leave room for a three-dot ellipsis.
pub fn safe_truncate(s: &str, max_len: usize) -> (r: String)
    requires
        is_ascii(s),
    ensures
        (s@.len() as usize) <= max_len ==> r@ == s@,
        (s@.len() as usize) > max_len ==> r@ == s@.subrange(
            0,
            if max_len >= 3 {
                max_len - 3
            } else {
                0
            },
        ) + "..."@,
{
    proof {
        is_ascii_spec_bytes(s);
    }
    if s.len() <= max_len {
        s.to_owned()
    } else {
        let k: usize = if max_len >= 3 {
            max_len - 3
        } else {
            0
        };
        let head = s.substring_ascii(0, k);
        let mut r = head.to_owned();
        r.append("...");
        r
    }
}

/// The characters of `s` with every whitespace character removed.
pub fn trim_whitespace(s: &str) -> (r: String)
    ensures
        r@ == s@.filter(|c: char| !is_whitespace_char(c)),
{
    let n: usize = s.unicode_len();
    let mut out = String::new();
    proof {
        reveal(Seq::filter);
        assert(s@.subrange(0, 0) =~= Seq::<char>::empty());
    }
    let mut i: usize = 0;
    while i < n
        invariant
            0 <= i <= n,
            n == s@.len(),
            out@ == s@.subrange(0, i as int).filter(|c: char| !is_whitespace_char(c)),
        decreases n - i,
    {
        let c = s.get_char(i);
        proof {
            reveal(Seq::filter);
            assert(s@.subrange(0, i as int + 1).drop_last() =~= s@.subrange(0, i as int));
            assert(s@.subrange(0, i as int + 1).last() == s@[i as int]);
        }
        if !char_is_whitespace(c) {
            push_char(&mut out, c);
        }
        i = i + 1;
    }
    proof {
        assert(s@.subrange(0, n as int) =~= s@);
    }
    out
}

/// A usable instrument symbol: not empty, at most ten bytes, every
/// character alphanumeric or a dot.
pub open spec fn valid_symbol_spec(s: &str) -> bool {
    &&& s@.len() > 0
    &&& (s.spec_bytes().len() as usize) <= 10
    &&& forall|i: int| 0 <= i < s@.len() ==> is_alnum_char(#[trigger] s@[i]) || s@[i] == '.'
}

pub fn is_valid_symbol(symbol: &str) -> (r: bool)
    ensures
        r == valid_symbol_spec(symbol),
{
    if symbol.is_empty() {
        return false;
    }
    if symbol.len() > 10 {
        return false;
    }
    let n: usize = symbol.unicode_len();
    let mut i: usize = 0;
    while i < n
        invariant
            0 <= i <= n,
            n == symbol@.len(),
            forall|j: int|
                0 <= j < i ==> is_alnum_char(#[trigger] symbol@[j]) || symbol@[j] == '.',
        decreases n - i,
    {
        let c = symbol.get_char(i);
        if !char_is_alphanumeric(c) && c != '.' {
            return false;
        }
        i = i + 1;
    }
    true
}

} // verus!
