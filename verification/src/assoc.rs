//! Name-keyed association vectors and their lookup discipline.
//!
//! A map is a `Vec<(String, V)>`; `set` replaces the first entry with the
//! key or appends a new one, so a map built only through `set` keeps its
//! keys unique, while a registry built by plain pushes lets the last
//! writer win (see `assoc_lookup`).

use vstd::prelude::*;

use crate::chars::{eq_str, to_chars};
use crate::models::pairs_view;

verus! {

/// Equality of two string slices.
pub fn str_eq(a: &str, b: &str) -> (r: bool)
    ensures
        r == (a@ == b@),
{
    let ca = to_chars(a);
    eq_str(&ca, b)
}

/// The first index whose key is `k`, or the length when no entry has it.
pub open spec fn spec_key_idx<V>(m: Seq<(Seq<char>, V)>, k: Seq<char>) -> int
    decreases m.len(),
{
    if m.len() == 0 {
        0
    } else if m[0].0 == k {
        0
    } else {
        1 + spec_key_idx(m.drop_first(), k)
    }
}

/// Whether some entry has key `k`.
pub open spec fn spec_has_key<V>(m: Seq<(Seq<char>, V)>, k: Seq<char>) -> bool {
    spec_key_idx(m, k) < m.len()
}

/// The value at the first entry with key `k`.
pub open spec fn spec_key_value<V>(m: Seq<(Seq<char>, V)>, k: Seq<char>) -> V
    recommends
        spec_has_key(m, k),
{
    m[spec_key_idx(m, k)].1
}

/// What `spec_key_idx` finds: the position of the first entry with the
/// key, within bounds, with no earlier entry keyed the same.
pub proof fn lemma_key_idx<V>(m: Seq<(Seq<char>, V)>, k: Seq<char>)
    ensures
        0 <= spec_key_idx(m, k) <= m.len(),
        spec_key_idx(m, k) < m.len() ==> m[spec_key_idx(m, k)].0 == k,
        forall|j: int| 0 <= j < spec_key_idx(m, k) ==> (#[trigger] m[j]).0 != k,
    decreases m.len(),
{
    if m.len() > 0 && m[0].0 != k {
        lemma_key_idx(m.drop_first(), k);
        assert forall|j: int| 0 <= j < spec_key_idx(m, k) implies (#[trigger] m[j]).0 != k by {
            if j >= 1 {
                assert(m.drop_first()[j - 1] == m[j]);
            }
        }
    }
}

/// Replacement or insertion: the first entry keyed `k` is replaced by
/// `(k, v)`; when none exists, `(k, v)` is appended.
pub open spec fn spec_assoc_set<V>(m: Seq<(Seq<char>, V)>, k: Seq<char>, v: V) -> Seq<
    (Seq<char>, V),
> {
    if spec_has_key(m, k) {
        m.update(spec_key_idx(m, k), (k, v))
    } else {
        m.push((k, v))
    }
}

/// The first index of `m` whose key is `k`, per `spec_key_idx`.
pub fn key_index<T: View>(m: &Vec<(String, T)>, k: &str) -> (r: usize)
    ensures
        r as int == spec_key_idx(pairs_view(m@), k@),
{
    proof {
        lemma_key_idx(pairs_view(m@), k@);
    }
    let mut i: usize = 0;
    while i < m.len()
        invariant
            i <= m@.len(),
            pairs_view(m@).len() == m@.len(),
            forall|j: int| 0 <= j < i ==> (#[trigger] pairs_view(m@)[j]).0 != k@,
            0 <= spec_key_idx(pairs_view(m@), k@) <= m@.len(),
            spec_key_idx(pairs_view(m@), k@) < m@.len() ==> pairs_view(m@)[spec_key_idx(
                pairs_view(m@),
                k@,
            )].0 == k@,
            forall|j: int|
                0 <= j < spec_key_idx(pairs_view(m@), k@) ==> (#[trigger] pairs_view(m@)[j]).0
                    != k@,
        decreases m@.len() - i,
    {
        if str_eq(m[i].0.as_str(), k) {
            proof {
                assert(pairs_view(m@)[i as int].0 == m@[i as int].0@);
                let s = spec_key_idx(pairs_view(m@), k@);
                if s < i as int {
                    assert(pairs_view(m@)[s].0 == k@);
                } else if s > i as int {
                    assert(pairs_view(m@)[i as int].0 != k@);
                }
            }
            return i;
        }
        proof {
            assert(pairs_view(m@)[i as int].0 == m@[i as int].0@);
        }
        i += 1;
    }
    proof {
        let s = spec_key_idx(pairs_view(m@), k@);
        if s < m@.len() {
            assert(pairs_view(m@)[s].0 == k@);
        }
    }
    i
}

/// Whether `m` has an entry keyed `k`.
pub fn has_key<T: View>(m: &Vec<(String, T)>, k: &str) -> (r: bool)
    ensures
        r == spec_has_key(pairs_view(m@), k@),
{
    proof {
        lemma_key_idx(pairs_view(m@), k@);
    }
    let i = key_index(m, k);
    i < m.len()
}

/// Replaces the first entry keyed `k` or appends one, per
/// `spec_assoc_set`.
pub fn assoc_set<T: View>(m: &mut Vec<(String, T)>, k: String, v: T)
    ensures
        pairs_view(final(m)@) == spec_assoc_set(pairs_view(old(m)@), k@, v@),
{
    proof {
        lemma_key_idx(pairs_view(m@), k@);
    }
    let i = key_index(m, k.as_str());
    if i < m.len() {
        let e = &mut m[i];
        *e = (k, v);
        proof {
            assert(pairs_view(m@) =~= spec_assoc_set(pairs_view(old(m)@), k@, v@));
        }
    } else {
        m.push((k, v));
        proof {
            assert(pairs_view(m@) =~= spec_assoc_set(pairs_view(old(m)@), k@, v@));
        }
    }
}

/// A reference to the value of the first entry keyed `k`.
pub fn assoc_get<'a, T: View>(m: &'a Vec<(String, T)>, k: &str) -> (r: Option<&'a T>)
    ensures
        match r {
            Some(v) => spec_has_key(pairs_view(m@), k@) && v@ == spec_key_value(
                pairs_view(m@),
                k@,
            ),
            None => !spec_has_key(pairs_view(m@), k@),
        },
{
    proof {
        lemma_key_idx(pairs_view(m@), k@);
    }
    let i = key_index(m, k);
    if i < m.len() {
        proof {
            assert(pairs_view(m@)[i as int].1 == m@[i as int].1@);
        }
        Some(&m[i].1)
    } else {
        None
    }
}

} // verus!
