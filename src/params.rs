//! Job parameters given on the command line as `KEY=VALUE` items.
use vstd::prelude::*;
use vstd::string::StrSliceExecFns;

verus! {

/// Index of the first `c` in `s`, or `s.len()` when `c` does not occur.
pub open spec fn first_index_of<A>(s: Seq<A>, c: A) -> nat
    decreases s.len(),
{
    if s.len() == 0 {
        0
    } else if s[0] == c {
        0
    } else {
        1 + first_index_of(s.drop_first(), c)
    }
}

/// A `KEY=VALUE` item with no `=` in it.
#[derive(Debug, Clone, PartialEq, Eq)]
pub struct ParamError {
    pub item: String,
}

impl ParamError {
    /// The message shown for the rejected item.
    pub fn message(&self) -> (r: String)
        ensures
            r@ == seq!['I', 'n', 'v', 'a', 'l', 'i', 'd', ' ', 'K', 'E', 'Y', '=', 'v', 'a', 'l', 'u', 'e', ':', ' ', 'n', 'o', ' ', '`', '=', '`', ' ', 'f', 'o', 'u', 'n', 'd', ' ', 'i', 'n', ' ', '`'] + self.item@ + seq!['`'],
    {
        let mut r = String::from_str("Invalid KEY=value: no `=` found in `");
        proof { reveal_strlit("Invalid KEY=value: no `=` found in `"); }
        r.append(self.item.as_str());
        r.append("`");
        proof { reveal_strlit("`"); }
        r
    }
}

/// What the first index of `c` in `s` is: no `c` before it, `c` at it.
pub proof fn lemma_first_index_bound<A>(s: Seq<A>, c: A)
    ensures
        first_index_of(s, c) <= s.len(),
        first_index_of(s, c) < s.len() ==> s[first_index_of(s, c) as int] == c,
        forall|j: int| 0 <= j < first_index_of(s, c) ==> s[j] != c,
    decreases s.len(),
{
    if s.len() > 0 && s[0] != c {
        lemma_first_index_bound(s.drop_first(), c);
        assert forall|j: int| 0 <= j < first_index_of(s, c) implies s[j] != c by {
            if j > 0 {
                assert(s[j] == s.drop_first()[j - 1]);
            }
        }
    }
}

/// The first index of `c` is `i` when no `c` stands before `i` and `c` stands at `i`, or `i` is the end.
pub proof fn lemma_first_index_is<A>(s: Seq<A>, c: A, i: int)
    requires
        0 <= i <= s.len(),
        forall|j: int| 0 <= j < i ==> s[j] != c,
        i == s.len() || s[i] == c,
    ensures
        first_index_of(s, c) == i,
{
    lemma_first_index_bound(s, c);
    let f = first_index_of(s, c) as int;
    if f < i {
        assert(s[f] == c);
    } else if f > i {
        assert(s[i] != c);
    }
}

/// Splits `s` at its first `=` into a key and a value.
///
/// The key is everything before the first `=`, the value everything after
/// it (and may itself hold `=`). An item with no `=` is rejected.
pub fn parse_key_val(s: &str) -> (r: Result<(String, String), ParamError>)
    ensures
        match r {
            Ok((k, v)) => s@.contains('=')
                && k@ == s@.take(first_index_of(s@, '=') as int)
                && v@ == s@.skip(first_index_of(s@, '=') + 1int),
            Err(e) => !s@.contains('=') && e.item@ == s@,
        },
{
    let n = s.unicode_len();
    let mut i: usize = 0;
    while i < n && s.get_char(i) != '='
        invariant
            n == s@.len(),
            i <= n,
            forall|j: int| 0 <= j < i ==> s@[j] != '=',
        decreases n - i,
    {
        i = i + 1;
    }
    proof {
        lemma_first_index_bound(s@, '=');
    }
    if i == n {
        assert(!s@.contains('=')) by {
            if s@.contains('=') {
                let j = choose|j: int| 0 <= j < s@.len() && s@[j] == '=';
                assert(s@[j] != '=');
            }
        }
        return Err(ParamError { item: s.to_owned() });
    }
    proof {
        lemma_first_index_is(s@, '=', i as int);
    }
    let key = s.substring_char(0, i).to_owned();
    let val = s.substring_char(i + 1, n).to_owned();
    Ok((key, val))
}

} // verus!
