use vstd::prelude::*;
use vstd::string::StrSliceExecFns;
use vstd::string::StringExecFns;

verus! {

/// The number of characters in `s`.
pub fn char_len(s: &str) -> (n: usize)
    ensures
        n == s@.len(),
{
    s.unicode_len()
}

/// The characters of `s` from `from` to `to` (character offsets), as a new
/// string.
pub fn substring(s: &str, from: usize, to: usize) -> (r: String)
    requires
        from <= to <= s@.len(),
    ensures
        r@ == s@.subrange(from as int, to as int),
{
    s.substring_char(from, to).to_owned()
}

/// Relies on `String::push`: appends the given character to the end of the
/// string.
#[verifier::external_body]
pub(crate) fn push_char(s: &mut String, c: char)
    ensures
        final(s)@ == old(s)@.push(c),
{
    s.push(c)
}

/// `s` with `c` inserted before character offset `i`.
pub fn insert_char(s: &str, i: usize, c: char) -> (r: String)
    requires
        i <= s@.len(),
    ensures
        r@ == s@.subrange(0, i as int) + seq![c] + s@.subrange(i as int, s@.len() as int),
{
    let n = s.unicode_len();
    let mut r = s.substring_char(0, i).to_owned();
    push_char(&mut r, c);
    r.append(s.substring_char(i, n));
    proof {
        assert(r@ =~= s@.subrange(0, i as int) + seq![c] + s@.subrange(
            i as int,
            s@.len() as int,
        ));
    }
    r
}

/// `s` without the characters in `[from, to)` (character offsets).
pub fn remove_char_range(s: &str, from: usize, to: usize) -> (r: String)
    requires
        from <= to <= s@.len(),
    ensures
        r@ == s@.subrange(0, from as int) + s@.subrange(to as int, s@.len() as int),
{
    let n = s.unicode_len();
    let mut r = s.substring_char(0, from).to_owned();
    r.append(s.substring_char(to, n));
    r
}

/// The character of `s` at character offset `i`.
pub fn char_at(s: &str, i: usize) -> (c: char)
    requires
        i < s@.len(),
    ensures
        c == s@[i as int],
{
    s.get_char(i)
}

/// The two strings concatenated.
pub fn concat_str(a: &str, b: &str) -> (r: String)
    ensures
        r@ == a@ + b@,
{
    let mut r = a.to_owned();
    r.append(b);
    r
}

} // verus!
