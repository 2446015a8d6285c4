//! Text as a sequence of characters.

use vstd::prelude::*;

verus! {

/// The characters of `s`, in order.
pub fn chars_of(s: &str) -> (chars: Vec<char>)
    ensures
        chars@ == s@,
{
    let mut chars: Vec<char> = Vec::new();
    for c in it: s.chars()
        invariant
            chars@ == it.seq().take(it.index()),
    {
        chars.push(c);
    }
    chars
}

/// Whether the characters of `a` from `from` on, `b.len()` of them, are those of `b`.
pub fn same_chars(a: &[char], from: usize, b: &[char]) -> (same: bool)
    requires
        from + b@.len() <= a@.len(),
    ensures
        same == (a@.subrange(from as int, from + b@.len() as int) == b@),
{
    assert(a.len() == a@.len());
    let mut k: usize = 0;
    while k < b.len()
        invariant
            from + b@.len() <= a@.len() <= usize::MAX,
            k <= b@.len(),
            forall|j: int| 0 <= j < k ==> a@[from + j] == b@[j],
        decreases b@.len() - k,
    {
        if a[from + k] != b[k] {
            assert(a@.subrange(from as int, from + b@.len() as int)[k as int] != b@[k as int]);
            return false;
        }
        k = k + 1;
    }
    assert(a@.subrange(from as int, from + b@.len() as int) =~= b@);
    true
}

/// Whether two texts are the same text.
pub fn same_text(a: &str, b: &str) -> (same: bool)
    ensures
        same == (a@ == b@),
{
    let a = chars_of(a);
    let b = chars_of(b);
    if a.len() != b.len() {
        return false;
    }
    assert(a@.subrange(0, 0 + b@.len() as int) =~= a@);
    same_chars(a.as_slice(), 0, b.as_slice())
}

} // verus!
