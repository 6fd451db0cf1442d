use vstd::prelude::*;

verus! {

/// The least index from `from` on, and below `n`, at which `p` holds.
pub open spec fn first_from(n: int, p: spec_fn(int) -> bool, from: int) -> Option<int>
    decreases n - from,
{
    if from >= n {
        None
    } else if p(from) {
        Some(from)
    } else {
        first_from(n, p, from + 1)
    }
}

/// The least index below `n`, and not below 0, at which `p` holds.
pub open spec fn first_index(n: int, p: spec_fn(int) -> bool) -> Option<int> {
    first_from(n, p, 0)
}

/// The predicate that holds at the indices where `names` holds `name`.
pub open spec fn holds_name(names: Seq<Seq<char>>, name: Seq<char>) -> spec_fn(int) -> bool {
    |j: int| names[j] == name
}

/// The first place at which `names` holds `name`.
pub open spec fn position(names: Seq<Seq<char>>, name: Seq<char>) -> Option<int> {
    first_index(names.len() as int, holds_name(names, name))
}

pub proof fn lemma_first_from(n: int, p: spec_fn(int) -> bool, from: int)
    ensures
        match first_from(n, p, from) {
            Some(r) => from <= r < n && p(r) && forall|l: int| from <= l < r ==> !#[trigger] p(l),
            None => forall|l: int| from <= l < n ==> !#[trigger] p(l),
        },
    decreases n - from,
{
    if from < n && !p(from) {
        lemma_first_from(n, p, from + 1);
    }
}

pub proof fn lemma_first_from_is(n: int, p: spec_fn(int) -> bool, from: int, r: int)
    requires
        from <= r < n,
        p(r),
        forall|l: int| from <= l < r ==> !#[trigger] p(l),
    ensures
        first_from(n, p, from) == Some(r),
    decreases r - from,
{
    if from < r {
        lemma_first_from_is(n, p, from + 1, r);
    }
}

/// What `first_index` returns is the least index at which `p` holds, and it
/// returns none only where `p` holds at no index.
pub proof fn lemma_first_index(n: int, p: spec_fn(int) -> bool)
    ensures
        match first_index(n, p) {
            Some(r) => 0 <= r < n && p(r) && forall|l: int| 0 <= l < r ==> !#[trigger] p(l),
            None => forall|l: int| 0 <= l < n ==> !#[trigger] p(l),
        },
{
    lemma_first_from(n, p, 0);
}

pub proof fn lemma_first_index_is(n: int, p: spec_fn(int) -> bool, r: int)
    requires
        0 <= r < n,
        p(r),
        forall|l: int| 0 <= l < r ==> !#[trigger] p(l),
    ensures
        first_index(n, p) == Some(r),
{
    lemma_first_from_is(n, p, 0, r);
}

pub proof fn lemma_first_index_none(n: int, p: spec_fn(int) -> bool)
    requires
        forall|l: int| 0 <= l < n ==> !#[trigger] p(l),
    ensures
        first_index(n, p) is None,
{
    lemma_first_from(n, p, 0);
}

/// `position` finds the first occurrence of a name, and finds none only
/// where the name does not occur.
pub proof fn lemma_position(names: Seq<Seq<char>>, name: Seq<char>)
    ensures
        match position(names, name) {
            Some(r) => 0 <= r < names.len() && names[r] == name && forall|l: int|
                0 <= l < r ==> #[trigger] names[l] != name,
            None => forall|l: int| 0 <= l < names.len() ==> #[trigger] names[l] != name,
        },
{
    let p = holds_name(names, name);
    lemma_first_index(names.len() as int, p);
    assert forall|l: int| 0 <= l < names.len() && !p(l) implies #[trigger] names[l] != name by {}
}

/// `position` finds a name exactly where the sequence holds it.
pub proof fn lemma_position_contains(names: Seq<Seq<char>>, name: Seq<char>)
    ensures
        position(names, name) is Some <==> names.contains(name),
{
    lemma_position(names, name);
    if let Some(r) = position(names, name) {
        assert(names[r] == name);
    }
}

} // verus!
