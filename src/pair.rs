use vstd::prelude::*;

verus! {

/// Whether `k` is the position of the first `separator` in `s`.
pub open spec fn is_first_separator(s: Seq<char>, separator: char, k: int) -> bool {
    0 <= k < s.len() && s[k] == separator && forall|j: int| 0 <= j < k ==> s[j] != separator
}

/// Splits `s` around its first `separator`, as in `"400x600"` or `"-1.5,0.25"`:
/// the text before it and the text after it, or `None` when `s` holds no
/// separator. Both parts may be empty.
pub fn split_pair(s: &Vec<char>, separator: char) -> (r: Option<(Vec<char>, Vec<char>)>)
    ensures
        r is None <==> !s@.contains(separator),
        r matches Some((left, right)) ==> exists|k: int|
            #[trigger] is_first_separator(s@, separator, k) && left@ == s@.subrange(0, k)
                && right@ == s@.subrange(k + 1, s@.len() as int),
{
    let n = s.len();
    let mut k: usize = 0;
    while k < n && s[k] != separator
        invariant
            n == s@.len(),
            k <= n,
            forall|j: int| 0 <= j < k ==> s@[j] != separator,
        decreases n - k,
    {
        k = k + 1;
    }
    if k == n {
        assert(!s@.contains(separator)) by {
            if s@.contains(separator) {
                let j = choose|j: int| 0 <= j < s@.len() && s@[j] == separator;
                assert(s@[j] != separator);
            }
        }
        return None;
    }
    let mut left: Vec<char> = Vec::new();
    let mut i: usize = 0;
    while i < k
        invariant
            n == s@.len(),
            k < n,
            i <= k,
            left@ == s@.subrange(0, i as int),
        decreases k - i,
    {
        left.push(s[i]);
        i = i + 1;
    }
    let mut right: Vec<char> = Vec::new();
    let mut i: usize = k + 1;
    while i < n
        invariant
            n == s@.len(),
            k < n,
            k + 1 <= i <= n,
            right@ == s@.subrange(k + 1, i as int),
        decreases n - i,
    {
        right.push(s[i]);
        i = i + 1;
    }
    assert(is_first_separator(s@, separator, k as int));
    assert(s@.contains(separator));
    Some((left, right))
}

} // verus!
