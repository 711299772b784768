//! The mathematical model under the store: counting elements of a sequence,
//! association lists (the name map, the per-type sequence map and the three
//! counter maps are all vectors of key/value pairs), and facts about
//! id-sorted link sequences.

use vstd::prelude::*;
use crate::text::lex_lt;
use crate::text::lemma_lex_lt_irreflexive;

verus! {

/// How many elements of `s` satisfy `p`.
pub open spec fn count_by<A>(s: Seq<A>, p: spec_fn(A) -> bool) -> nat
    decreases s.len(),
{
    if s.len() == 0 {
        0
    } else {
        count_by(s.drop_last(), p) + (if p(s.last()) {
            1nat
        } else {
            0nat
        })
    }
}

pub proof fn lemma_count_by_push<A>(s: Seq<A>, p: spec_fn(A) -> bool, x: A)
    ensures
        count_by(s.push(x), p) == count_by(s, p) + (if p(x) {
            1nat
        } else {
            0nat
        }),
{
    assert(s.push(x).drop_last() =~= s);
    assert(s.push(x).last() == x);
}

pub proof fn lemma_count_by_le_len<A>(s: Seq<A>, p: spec_fn(A) -> bool)
    ensures
        count_by(s, p) <= s.len(),
    decreases s.len(),
{
    if s.len() > 0 {
        lemma_count_by_le_len(s.drop_last(), p);
    }
}

pub proof fn lemma_count_by_pos<A>(s: Seq<A>, p: spec_fn(A) -> bool, i: int)
    requires
        0 <= i < s.len(),
        p(s[i]),
    ensures
        count_by(s, p) >= 1,
    decreases s.len(),
{
    if i < s.len() - 1 {
        assert(s.drop_last()[i] == s[i]);
        lemma_count_by_pos(s.drop_last(), p, i);
    }
}

pub proof fn lemma_count_by_remove<A>(s: Seq<A>, p: spec_fn(A) -> bool, i: int)
    requires
        0 <= i < s.len(),
    ensures
        count_by(s, p) == count_by(s.remove(i), p) + (if p(s[i]) {
            1nat
        } else {
            0nat
        }),
    decreases s.len(),
{
    if i == s.len() - 1 {
        assert(s.remove(i) =~= s.drop_last());
    } else {
        assert(s.remove(i).drop_last() =~= s.drop_last().remove(i));
        assert(s.remove(i).last() == s.last());
        assert(s.drop_last()[i] == s[i]);
        lemma_count_by_remove(s.drop_last(), p, i);
    }
}

pub proof fn lemma_count_by_update<A>(s: Seq<A>, p: spec_fn(A) -> bool, i: int, x: A)
    requires
        0 <= i < s.len(),
        p(x) == p(s[i]),
    ensures
        count_by(s.update(i, x), p) == count_by(s, p),
    decreases s.len(),
{
    if i == s.len() - 1 {
        assert(s.update(i, x).drop_last() =~= s.drop_last());
        assert(s.update(i, x).last() == x);
    } else {
        assert(s.update(i, x).drop_last() =~= s.drop_last().update(i, x));
        assert(s.update(i, x).last() == s.last());
        assert(s.drop_last()[i] == s[i]);
        lemma_count_by_update(s.drop_last(), p, i, x);
    }
}

// ---------------------------------------------------------------------------
// Association lists keyed by one string.
// ---------------------------------------------------------------------------

/// The views of the keys at two distinct positions always differ.
pub open spec fn keys_unique(s: Seq<(String, u64)>) -> bool {
    forall|i: int, j: int| 0 <= i < j < s.len() ==> s[i].0@ != s[j].0@
}

/// Some entry carries the key `k`.
pub open spec fn key_has(s: Seq<(String, u64)>, k: Seq<char>) -> bool {
    exists|i: int| 0 <= i < s.len() && s[i].0@ == k
}

/// The position of the entry carrying `k` (meaningful when `key_has`).
pub open spec fn key_idx(s: Seq<(String, u64)>, k: Seq<char>) -> int {
    choose|i: int| 0 <= i < s.len() && s[i].0@ == k
}

/// The value stored under `k` (meaningful when `key_has`).
pub open spec fn key_val(s: Seq<(String, u64)>, k: Seq<char>) -> u64 {
    s[key_idx(s, k)].1
}

/// The value stored under `k`, reading an absent key as zero.
pub open spec fn map_val(s: Seq<(String, u64)>, k: Seq<char>) -> u64 {
    if key_has(s, k) {
        key_val(s, k)
    } else {
        0
    }
}

pub proof fn lemma_key_idx_is(s: Seq<(String, u64)>, i: int)
    requires
        keys_unique(s),
        0 <= i < s.len(),
    ensures
        key_has(s, s[i].0@),
        key_idx(s, s[i].0@) == i,
        key_val(s, s[i].0@) == s[i].1,
{
    assert(key_has(s, s[i].0@));
    let j = key_idx(s, s[i].0@);
    if j != i {
        assert(s[i].0@ != s[j].0@);
    }
}

// ---------------------------------------------------------------------------
// Association lists keyed by a pair of strings.
// ---------------------------------------------------------------------------

pub open spec fn keys2_unique(s: Seq<(String, String, u64)>) -> bool {
    forall|i: int, j: int|
        0 <= i < j < s.len() ==> !(s[i].0@ == s[j].0@ && s[i].1@ == s[j].1@)
}

pub open spec fn key2_has(s: Seq<(String, String, u64)>, a: Seq<char>, b: Seq<char>) -> bool {
    exists|i: int| 0 <= i < s.len() && s[i].0@ == a && s[i].1@ == b
}

pub open spec fn key2_idx(s: Seq<(String, String, u64)>, a: Seq<char>, b: Seq<char>) -> int {
    choose|i: int| 0 <= i < s.len() && s[i].0@ == a && s[i].1@ == b
}

pub open spec fn key2_val(s: Seq<(String, String, u64)>, a: Seq<char>, b: Seq<char>) -> u64 {
    s[key2_idx(s, a, b)].2
}

pub open spec fn map2_val(s: Seq<(String, String, u64)>, a: Seq<char>, b: Seq<char>) -> u64 {
    if key2_has(s, a, b) {
        key2_val(s, a, b)
    } else {
        0
    }
}

pub proof fn lemma_key2_idx_is(s: Seq<(String, String, u64)>, i: int)
    requires
        keys2_unique(s),
        0 <= i < s.len(),
    ensures
        key2_has(s, s[i].0@, s[i].1@),
        key2_idx(s, s[i].0@, s[i].1@) == i,
        key2_val(s, s[i].0@, s[i].1@) == s[i].2,
{
    assert(key2_has(s, s[i].0@, s[i].1@));
    let j = key2_idx(s, s[i].0@, s[i].1@);
    if j != i {
        assert(!(s[i].0@ == s[j].0@ && s[i].1@ == s[j].1@));
    }
}

// ---------------------------------------------------------------------------
// Name maps kept in strict lexicographic order.
// ---------------------------------------------------------------------------

pub open spec fn names_sorted(s: Seq<(String, u64)>) -> bool {
    forall|i: int, j: int| 0 <= i < j < s.len() ==> lex_lt(s[i].0@, s[j].0@)
}

pub proof fn lemma_names_sorted_unique(s: Seq<(String, u64)>)
    requires
        names_sorted(s),
    ensures
        keys_unique(s),
{
    assert forall|i: int, j: int| 0 <= i < j < s.len() implies s[i].0@ != s[j].0@ by {
        assert(lex_lt(s[i].0@, s[j].0@));
        lemma_lex_lt_irreflexive(s[i].0@);
    }
}

// ---------------------------------------------------------------------------
// Deleted-id lists and the id-sorted primary sequence.
// ---------------------------------------------------------------------------

pub open spec fn del_has(s: Seq<u64>, gid: u64) -> bool {
    exists|i: int| 0 <= i < s.len() && s[i] == gid
}

pub open spec fn links_sorted(s: Seq<(u64, crate::state::CyberlinkState)>) -> bool {
    forall|i: int, j: int| 0 <= i < j < s.len() ==> s[i].0 < s[j].0
}

pub open spec fn has_gid(s: Seq<(u64, crate::state::CyberlinkState)>, gid: u64) -> bool {
    exists|i: int| 0 <= i < s.len() && s[i].0 == gid
}

pub open spec fn gid_idx(s: Seq<(u64, crate::state::CyberlinkState)>, gid: u64) -> int {
    choose|i: int| 0 <= i < s.len() && s[i].0 == gid
}

/// The record stored under a live id (meaningful when `has_gid`).
pub open spec fn link_of(s: Seq<(u64, crate::state::CyberlinkState)>, gid: u64) -> crate::state::CyberlinkState {
    s[gid_idx(s, gid)].1
}

pub proof fn lemma_gid_idx_is(s: Seq<(u64, crate::state::CyberlinkState)>, i: int)
    requires
        links_sorted(s),
        0 <= i < s.len(),
    ensures
        has_gid(s, s[i].0),
        gid_idx(s, s[i].0) == i,
        link_of(s, s[i].0) == s[i].1,
{
    assert(has_gid(s, s[i].0));
    let j = gid_idx(s, s[i].0);
    if j < i {
        assert(s[j].0 < s[i].0);
    } else if j > i {
        assert(s[i].0 < s[j].0);
    }
}

/// In an id-sorted sequence of ids at least 1, the id at position `i` is at
/// least `i + 1`; so the sequence can hold at most `last` many ids below a
/// bound `last`.
pub proof fn lemma_gid_lower_bound(s: Seq<(u64, crate::state::CyberlinkState)>, i: int)
    requires
        links_sorted(s),
        forall|k: int| 0 <= k < s.len() ==> (#[trigger] s[k].0) >= 1,
        0 <= i < s.len(),
    ensures
        s[i].0 >= i + 1,
    decreases i,
{
    if i > 0 {
        lemma_gid_lower_bound(s, i - 1);
        assert(s[i - 1].0 < s[i].0);
    }
}

pub proof fn lemma_links_len_bound(s: Seq<(u64, crate::state::CyberlinkState)>, last: u64)
    requires
        links_sorted(s),
        forall|k: int| 0 <= k < s.len() ==> 1 <= (#[trigger] s[k].0) && s[k].0 <= last,
    ensures
        s.len() <= last,
{
    if s.len() > 0 {
        lemma_gid_lower_bound(s, s.len() - 1);
    }
}

} // verus!
