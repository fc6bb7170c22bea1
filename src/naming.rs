use convert_case::{Case, Casing};
use vstd::prelude::*;
use vstd::utf8::is_ascii_chars;

verus! {

/// What `convert_case` produces for an identifier under `Case::Camel`.
pub uninterp spec fn camel_of(s: Seq<char>) -> Seq<char>;

/// What `convert_case` produces for an identifier under `Case::Kebab`.
pub uninterp spec fn kebab_of(s: Seq<char>) -> Seq<char>;

/// Relies on `convert_case::Casing::to_case` with `Case::Camel`: the result
/// depends on the characters of the input alone. Word boundaries are found by
/// character position and then used as byte offsets, so only ASCII input is
/// handed over: there the two agree and the split cannot panic.
#[verifier::external_body]
pub(crate) fn to_camel(s: &str) -> (r: String)
    requires
        is_ascii_chars(s@),
    ensures
        r@ == camel_of(s@),
{
    s.to_case(Case::Camel)
}

/// Relies on `convert_case::Casing::to_case` with `Case::Kebab`: the result
/// depends on the characters of the input alone. As for `to_camel`, only
/// ASCII input is handed over.
#[verifier::external_body]
pub(crate) fn to_kebab(s: &str) -> (r: String)
    requires
        is_ascii_chars(s@),
    ensures
        r@ == kebab_of(s@),
{
    s.to_case(Case::Kebab)
}

/// The character sequences held by a sequence of strings.
pub open spec fn views(v: Seq<String>) -> Seq<Seq<char>> {
    v.map_values(|s: String| s@)
}

/// No two entries are equal.
pub open spec fn all_distinct(s: Seq<Seq<char>>) -> bool {
    forall|i: int, j: int| 0 <= i < j < s.len() ==> #[trigger] s[i] != #[trigger] s[j]
}

/// The first pair of positions, in order, whose names are equal, or `None`
/// when all names are distinct.
pub fn first_collision(names: &Vec<String>) -> (r: Option<(usize, usize)>)
    ensures
        match r {
            None => all_distinct(views(names@)),
            Some((i, j)) => {
                &&& i < j < names@.len()
                &&& names@[i as int]@ == names@[j as int]@
                &&& forall|a: int, b: int|
                    0 <= a < b < names@.len() && (a < i || (a == i && b < j)) ==> #[trigger] names@[a]@
                        != #[trigger] names@[b]@
            },
        },
{
    let n = names.len();
    let mut i: usize = 0;
    while i < n
        invariant
            n == names@.len(),
            i <= n,
            forall|a: int, b: int|
                0 <= a < i && a < b < n ==> #[trigger] names@[a]@ != #[trigger] names@[b]@,
        decreases n - i,
    {
        let mut j: usize = i + 1;
        while j < n
            invariant
                n == names@.len(),
                i < n,
                i < j <= n,
                forall|a: int, b: int|
                    0 <= a < i && a < b < n ==> #[trigger] names@[a]@ != #[trigger] names@[b]@,
                forall|b: int| i < b < j ==> names@[i as int]@ != #[trigger] names@[b]@,
            decreases n - j,
        {
            if names[i] == names[j] {
                return Some((i, j));
            }
            j = j + 1;
        }
        i = i + 1;
    }
    proof {
        let v = views(names@);
        assert forall|a: int, b: int| 0 <= a < b < v.len() implies #[trigger] v[a] != #[trigger] v[b] by {
            assert(names@[a]@ != names@[b]@);
        }
    }
    None
}

} // verus!
