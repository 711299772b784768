//! The store itself: the primary id-keyed record sequence, the permanent
//! formatted-id name map, the tombstone set, the per-type sequence counters
//! and the three aggregate counter maps, all bound together by one
//! well-formedness invariant.

use vstd::prelude::*;
use crate::model::{
    count_by, del_has, gid_idx, has_gid, key2_has, key2_idx, key_has, key_idx, key_val,
    keys2_unique, keys_unique, lemma_gid_idx_is, lemma_key2_idx_is, lemma_key_idx_is, link_of,
    links_sorted, map2_val, map_val, names_sorted,
};
use crate::text::{auto_fid, lemma_lex_lt_transitive, lemma_lex_lt_trichotomy, lex_lt};

verus! {

/// A stored link record.  `fid` carries the formatted id the record was
/// created under; `from`/`to` hold the `"Any"` sentinel for vertices.
#[derive(Debug)]
pub struct CyberlinkState {
    pub fid: Option<String>,
    pub type_: String,
    pub from: String,
    pub to: String,
    pub value: String,
    pub owner: String,
    pub created_at: u64,
    pub updated_at: Option<u64>,
}

impl Clone for CyberlinkState {
    fn clone(&self) -> (res: Self)
        ensures
            res == *self,
    {
        CyberlinkState {
            fid: crate::msg::clone_opt_string(&self.fid),
            type_: self.type_.clone(),
            from: self.from.clone(),
            to: self.to.clone(),
            value: self.value.clone(),
            owner: self.owner.clone(),
            created_at: self.created_at,
            updated_at: match self.updated_at {
                Option::None => Option::None,
                Option::Some(t) => Option::Some(t),
            },
        }
    }
}

/// Some address in `s` reads as `a`.
pub open spec fn addr_in(s: Seq<String>, a: Seq<char>) -> bool {
    exists|i: int| 0 <= i < s.len() && s[i]@ == a
}

/// Who administers the store and who may create links.
pub struct Config {
    pub admins: Vec<String>,
    pub executors: Vec<String>,
}

/// Reports whether `a` occurs in `v`.
pub(crate) fn addr_vec_contains(v: &Vec<String>, a: &str) -> (r: bool)
    ensures
        r == addr_in(v@, a@),
{
    let n: usize = v.len();
    let mut i: usize = 0;
    while i < n
        invariant
            0 <= i <= n,
            n == v@.len(),
            forall|j: int| 0 <= j < i ==> v@[j]@ != a@,
        decreases n - i,
    {
        if crate::text::str_eq(v[i].as_str(), a) {
            return true;
        }
        i = i + 1;
    }
    false
}

impl Config {
    pub open spec fn spec_is_admin(self, a: Seq<char>) -> bool {
        addr_in(self.admins@, a)
    }

    pub open spec fn spec_is_executor(self, a: Seq<char>) -> bool {
        addr_in(self.executors@, a)
    }

    /// Administrator capability: delete, manage schema, manage lists.
    pub open spec fn spec_can_modify(self, a: Seq<char>) -> bool {
        self.spec_is_admin(a)
    }

    /// Execution capability: administrators and executors may create links.
    pub open spec fn spec_can_execute(self, a: Seq<char>) -> bool {
        self.spec_is_admin(a) || self.spec_is_executor(a)
    }

    pub fn is_admin(&self, addr: &str) -> (r: bool)
        ensures
            r == self.spec_is_admin(addr@),
    {
        addr_vec_contains(&self.admins, addr)
    }

    pub fn is_executor(&self, addr: &str) -> (r: bool)
        ensures
            r == self.spec_is_executor(addr@),
    {
        addr_vec_contains(&self.executors, addr)
    }

    pub fn can_modify(&self, addr: &str) -> (r: bool)
        ensures
            r == self.spec_can_modify(addr@),
    {
        self.is_admin(addr)
    }

    pub fn can_execute(&self, addr: &str) -> (r: bool)
        ensures
            r == self.spec_can_execute(addr@),
    {
        let adm = self.is_admin(addr);
        if adm {
            true
        } else {
            self.is_executor(addr)
        }
    }
}

/// Finds the position of `key` in an association vector, if present.
pub(crate) fn assoc_find(m: &Vec<(String, u64)>, key: &str) -> (r: Option<usize>)
    ensures
        match r {
            Option::Some(i) => i < m@.len() && m@[i as int].0@ == key@,
            Option::None => forall|j: int| 0 <= j < m@.len() ==> m@[j].0@ != key@,
        },
{
    let n: usize = m.len();
    let mut i: usize = 0;
    while i < n
        invariant
            0 <= i <= n,
            n == m@.len(),
            forall|j: int| 0 <= j < i ==> m@[j].0@ != key@,
        decreases n - i,
    {
        if crate::text::str_eq(m[i].0.as_str(), key) {
            return Option::Some(i);
        }
        i = i + 1;
    }
    Option::None
}

/// Looks a key up in an association vector with unique keys.
pub(crate) fn assoc_lookup(m: &Vec<(String, u64)>, key: &str) -> (r: Option<u64>)
    requires
        keys_unique(m@),
    ensures
        match r {
            Option::Some(v) => key_has(m@, key@) && key_val(m@, key@) == v,
            Option::None => !key_has(m@, key@),
        },
{
    let fo = assoc_find(m, key);
    match fo {
        Option::Some(i) => {
            proof {
                lemma_key_idx_is(m@, i as int);
            }
            Option::Some(m[i].1)
        },
        Option::None => {
            proof {
                if key_has(m@, key@) {
                    let w = key_idx(m@, key@);
                    assert(m@[w].0@ == key@);
                }
            }
            Option::None
        },
    }
}

/// Adds one to the counter under `key`, creating the entry at one if absent,
/// and returns the new value.  Every other key keeps its value.
pub(crate) fn map_bump(m: &mut Vec<(String, u64)>, key: &str) -> (r: u64)
    requires
        keys_unique(old(m)@),
        forall|i: int| 0 <= i < old(m)@.len() ==> (#[trigger] old(m)@[i]).1 >= 1,
        map_val(old(m)@, key@) < u64::MAX,
    ensures
        keys_unique(final(m)@),
        forall|i: int| 0 <= i < final(m)@.len() ==> (#[trigger] final(m)@[i]).1 >= 1,
        r == map_val(old(m)@, key@) + 1,
        map_val(final(m)@, key@) == r,
        forall|k: Seq<char>|
            k != key@ ==> #[trigger] map_val(final(m)@, k) == map_val(old(m)@, k),
{
    let ghost s0 = m@;
    let fo = assoc_find(m, key);
    match fo {
        Option::Some(j) => {
            proof {
                lemma_key_idx_is(s0, j as int);
            }
            let pair = m.remove(j);
            let newv: u64 = pair.1 + 1;
            m.insert(j, (pair.0, newv));
            proof {
                assert(m@ =~= s0.update(j as int, (s0[j as int].0, newv)));
                assert(forall|i: int|
                    0 <= i < m@.len() ==> (#[trigger] m@[i]).0@ == s0[i].0@);
                lemma_key_idx_is(m@, j as int);
                assert forall|k: Seq<char>| k != key@ implies #[trigger] map_val(m@, k)
                    == map_val(s0, k) by {
                    if key_has(m@, k) {
                        let i = key_idx(m@, k);
                        assert(s0[i].0@ == k);
                        lemma_key_idx_is(s0, i);
                        lemma_key_idx_is(m@, i);
                    } else if key_has(s0, k) {
                        let i = key_idx(s0, k);
                        assert(m@[i].0@ == k);
                    }
                }
            }
            newv
        },
        Option::None => {
            proof {
                if key_has(s0, key@) {
                    let w = key_idx(s0, key@);
                    assert(s0[w].0@ == key@);
                }
            }
            m.push((String::from_str(key), 1));
            proof {
                assert(m@ == s0.push((m@[s0.len() as int].0, 1)));
                lemma_key_idx_is(m@, s0.len() as int);
                assert forall|k: Seq<char>| k != key@ implies #[trigger] map_val(m@, k)
                    == map_val(s0, k) by {
                    if key_has(m@, k) {
                        let i = key_idx(m@, k);
                        assert(i < s0.len());
                        assert(s0[i].0@ == k);
                        lemma_key_idx_is(s0, i);
                        lemma_key_idx_is(m@, i);
                    } else if key_has(s0, k) {
                        let i = key_idx(s0, k);
                        assert(m@[i].0@ == k);
                    }
                }
            }
            1
        },
    }
}

/// Takes one from the counter under `key`, removing the entry when it
/// reaches zero.  Every other key keeps its value.
pub(crate) fn map_drop(m: &mut Vec<(String, u64)>, key: &str)
    requires
        keys_unique(old(m)@),
        forall|i: int| 0 <= i < old(m)@.len() ==> (#[trigger] old(m)@[i]).1 >= 1,
        map_val(old(m)@, key@) >= 1,
    ensures
        keys_unique(final(m)@),
        forall|i: int| 0 <= i < final(m)@.len() ==> (#[trigger] final(m)@[i]).1 >= 1,
        map_val(final(m)@, key@) == map_val(old(m)@, key@) - 1,
        forall|k: Seq<char>|
            k != key@ ==> #[trigger] map_val(final(m)@, k) == map_val(old(m)@, k),
{
    let ghost s0 = m@;
    let fo = assoc_find(m, key);
    match fo {
        Option::None => {
            proof {
                assert(key_has(s0, key@));
                let w = key_idx(s0, key@);
                assert(s0[w].0@ == key@);
                assert(false);
            }
        },
        Option::Some(j) => {
            proof {
                lemma_key_idx_is(s0, j as int);
            }
            let pair = m.remove(j);
            if pair.1 > 1 {
                let newv: u64 = pair.1 - 1;
                m.insert(j, (pair.0, newv));
                proof {
                    assert(m@ =~= s0.update(j as int, (s0[j as int].0, newv)));
                    assert(forall|i: int|
                        0 <= i < m@.len() ==> (#[trigger] m@[i]).0@ == s0[i].0@);
                    lemma_key_idx_is(m@, j as int);
                    assert forall|k: Seq<char>| k != key@ implies #[trigger] map_val(m@, k)
                        == map_val(s0, k) by {
                        if key_has(m@, k) {
                            let i = key_idx(m@, k);
                            assert(s0[i].0@ == k);
                            lemma_key_idx_is(s0, i);
                            lemma_key_idx_is(m@, i);
                        } else if key_has(s0, k) {
                            let i = key_idx(s0, k);
                            assert(m@[i].0@ == k);
                        }
                    }
                }
            } else {
                proof {
                    assert(m@ == s0.remove(j as int));
                    assert forall|a: int, b: int| 0 <= a < b < m@.len() implies m@[a].0@
                        != m@[b].0@ by {
                        let a0 = if a < j as int { a } else { a + 1 };
                        let b0 = if b < j as int { b } else { b + 1 };
                        assert(m@[a] == s0[a0]);
                        assert(m@[b] == s0[b0]);
                    }
                    assert forall|i: int| 0 <= i < m@.len() implies (#[trigger] m@[i]).1
                        >= 1 by {
                        let i0 = if i < j as int { i } else { i + 1 };
                        assert(m@[i] == s0[i0]);
                    }
                    assert(!key_has(m@, key@)) by {
                        if key_has(m@, key@) {
                            let i = key_idx(m@, key@);
                            let i0 = if i < j as int { i } else { i + 1 };
                            assert(m@[i] == s0[i0]);
                            assert(s0[i0].0@ == key@);
                            assert(i0 != j as int);
                        }
                    }
                    assert(map_val(s0, key@) == 1);
                    assert forall|k: Seq<char>| k != key@ implies #[trigger] map_val(m@, k)
                        == map_val(s0, k) by {
                        if key_has(m@, k) {
                            let i = key_idx(m@, k);
                            let i0 = if i < j as int { i } else { i + 1 };
                            assert(m@[i] == s0[i0]);
                            assert(s0[i0].0@ == k);
                            lemma_key_idx_is(s0, i0);
                            lemma_key_idx_is(m@, i);
                            assert(key_val(m@, k) == key_val(s0, k));
                        } else if key_has(s0, k) {
                            let i0 = key_idx(s0, k);
                            assert(s0[i0].0@ == k);
                            assert(i0 != j as int);
                            let i = if i0 < j as int { i0 } else { i0 - 1 };
                            assert(m@[i] == s0[i0]);
                            assert(m@[i].0@ == k);
                        }
                    }
                }
            }
        },
    }
}

/// Finds the position of the pair key `(a, b)` in a two-key counter vector.
pub(crate) fn assoc2_find(m: &Vec<(String, String, u64)>, a: &str, b: &str) -> (r: Option<
    usize,
>)
    ensures
        match r {
            Option::Some(i) => i < m@.len() && m@[i as int].0@ == a@ && m@[i as int].1@ == b@,
            Option::None => forall|j: int|
                0 <= j < m@.len() ==> !(m@[j].0@ == a@ && m@[j].1@ == b@),
        },
{
    let n: usize = m.len();
    let mut i: usize = 0;
    while i < n
        invariant
            0 <= i <= n,
            n == m@.len(),
            forall|j: int| 0 <= j < i ==> !(m@[j].0@ == a@ && m@[j].1@ == b@),
        decreases n - i,
    {
        if crate::text::str_eq(m[i].0.as_str(), a) && crate::text::str_eq(m[i].1.as_str(), b) {
            return Option::Some(i);
        }
        i = i + 1;
    }
    Option::None
}

/// `map_bump` for the owner-and-type counter map.
pub(crate) fn map2_bump(m: &mut Vec<(String, String, u64)>, a: &str, b: &str) -> (r: u64)
    requires
        keys2_unique(old(m)@),
        forall|i: int| 0 <= i < old(m)@.len() ==> (#[trigger] old(m)@[i]).2 >= 1,
        map2_val(old(m)@, a@, b@) < u64::MAX,
    ensures
        keys2_unique(final(m)@),
        forall|i: int| 0 <= i < final(m)@.len() ==> (#[trigger] final(m)@[i]).2 >= 1,
        r == map2_val(old(m)@, a@, b@) + 1,
        map2_val(final(m)@, a@, b@) == r,
        forall|x: Seq<char>, y: Seq<char>|
            !(x == a@ && y == b@) ==> #[trigger] map2_val(final(m)@, x, y) == map2_val(
                old(m)@,
                x,
                y,
            ),
{
    let ghost s0 = m@;
    let fo = assoc2_find(m, a, b);
    match fo {
        Option::Some(j) => {
            proof {
                lemma_key2_idx_is(s0, j as int);
            }
            let trip = m.remove(j);
            let newv: u64 = trip.2 + 1;
            m.insert(j, (trip.0, trip.1, newv));
            proof {
                assert(m@ =~= s0.update(j as int, (s0[j as int].0, s0[j as int].1, newv)));
                assert(forall|i: int|
                    0 <= i < m@.len() ==> (#[trigger] m@[i]).0@ == s0[i].0@ && m@[i].1@
                        == s0[i].1@);
                lemma_key2_idx_is(m@, j as int);
                assert forall|x: Seq<char>, y: Seq<char>| !(x == a@ && y == b@) implies #[trigger] map2_val(
                    m@,
                    x,
                    y,
                ) == map2_val(s0, x, y) by {
                    if key2_has(m@, x, y) {
                        let i = key2_idx(m@, x, y);
                        assert(s0[i].0@ == x && s0[i].1@ == y);
                        lemma_key2_idx_is(s0, i);
                        lemma_key2_idx_is(m@, i);
                    } else if key2_has(s0, x, y) {
                        let i = key2_idx(s0, x, y);
                        assert(m@[i].0@ == x && m@[i].1@ == y);
                    }
                }
            }
            newv
        },
        Option::None => {
            proof {
                if key2_has(s0, a@, b@) {
                    let w = key2_idx(s0, a@, b@);
                    assert(s0[w].0@ == a@ && s0[w].1@ == b@);
                }
            }
            m.push((String::from_str(a), String::from_str(b), 1));
            proof {
                assert(m@ == s0.push((m@[s0.len() as int].0, m@[s0.len() as int].1, 1)));
                lemma_key2_idx_is(m@, s0.len() as int);
                assert forall|x: Seq<char>, y: Seq<char>| !(x == a@ && y == b@) implies #[trigger] map2_val(
                    m@,
                    x,
                    y,
                ) == map2_val(s0, x, y) by {
                    if key2_has(m@, x, y) {
                        let i = key2_idx(m@, x, y);
                        assert(i < s0.len());
                        assert(s0[i].0@ == x && s0[i].1@ == y);
                        lemma_key2_idx_is(s0, i);
                        lemma_key2_idx_is(m@, i);
                    } else if key2_has(s0, x, y) {
                        let i = key2_idx(s0, x, y);
                        assert(m@[i].0@ == x && m@[i].1@ == y);
                    }
                }
            }
            1
        },
    }
}

/// `map_drop` for the owner-and-type counter map.
pub(crate) fn map2_drop(m: &mut Vec<(String, String, u64)>, a: &str, b: &str)
    requires
        keys2_unique(old(m)@),
        forall|i: int| 0 <= i < old(m)@.len() ==> (#[trigger] old(m)@[i]).2 >= 1,
        map2_val(old(m)@, a@, b@) >= 1,
    ensures
        keys2_unique(final(m)@),
        forall|i: int| 0 <= i < final(m)@.len() ==> (#[trigger] final(m)@[i]).2 >= 1,
        map2_val(final(m)@, a@, b@) == map2_val(old(m)@, a@, b@) - 1,
        forall|x: Seq<char>, y: Seq<char>|
            !(x == a@ && y == b@) ==> #[trigger] map2_val(final(m)@, x, y) == map2_val(
                old(m)@,
                x,
                y,
            ),
{
    let ghost s0 = m@;
    let fo = assoc2_find(m, a, b);
    match fo {
        Option::None => {
            proof {
                assert(key2_has(s0, a@, b@));
                let w = key2_idx(s0, a@, b@);
                assert(s0[w].0@ == a@ && s0[w].1@ == b@);
                assert(false);
            }
        },
        Option::Some(j) => {
            proof {
                lemma_key2_idx_is(s0, j as int);
            }
            let trip = m.remove(j);
            if trip.2 > 1 {
                let newv: u64 = trip.2 - 1;
                m.insert(j, (trip.0, trip.1, newv));
                proof {
                    assert(m@ =~= s0.update(j as int, (s0[j as int].0, s0[j as int].1, newv)));
                    assert(forall|i: int|
                        0 <= i < m@.len() ==> (#[trigger] m@[i]).0@ == s0[i].0@ && m@[i].1@
                            == s0[i].1@);
                    lemma_key2_idx_is(m@, j as int);
                    assert forall|x: Seq<char>, y: Seq<char>| !(x == a@ && y == b@) implies #[trigger] map2_val(
                        m@,
                        x,
                        y,
                    ) == map2_val(s0, x, y) by {
                        if key2_has(m@, x, y) {
                            let i = key2_idx(m@, x, y);
                            assert(s0[i].0@ == x && s0[i].1@ == y);
                            lemma_key2_idx_is(s0, i);
                            lemma_key2_idx_is(m@, i);
                        } else if key2_has(s0, x, y) {
                            let i = key2_idx(s0, x, y);
                            assert(m@[i].0@ == x && m@[i].1@ == y);
                        }
                    }
                }
            } else {
                proof {
                    assert(m@ == s0.remove(j as int));
                    assert forall|p: int, q: int| 0 <= p < q < m@.len() implies !(m@[p].0@
                        == m@[q].0@ && m@[p].1@ == m@[q].1@) by {
                        let p0 = if p < j as int { p } else { p + 1 };
                        let q0 = if q < j as int { q } else { q + 1 };
                        assert(m@[p] == s0[p0]);
                        assert(m@[q] == s0[q0]);
                    }
                    assert forall|i: int| 0 <= i < m@.len() implies (#[trigger] m@[i]).2
                        >= 1 by {
                        let i0 = if i < j as int { i } else { i + 1 };
                        assert(m@[i] == s0[i0]);
                    }
                    assert(!key2_has(m@, a@, b@)) by {
                        if key2_has(m@, a@, b@) {
                            let i = key2_idx(m@, a@, b@);
                            let i0 = if i < j as int { i } else { i + 1 };
                            assert(m@[i] == s0[i0]);
                            assert(s0[i0].0@ == a@ && s0[i0].1@ == b@);
                            assert(i0 != j as int);
                        }
                    }
                    assert(map2_val(s0, a@, b@) == 1);
                    assert forall|x: Seq<char>, y: Seq<char>| !(x == a@ && y == b@) implies #[trigger] map2_val(
                        m@,
                        x,
                        y,
                    ) == map2_val(s0, x, y) by {
                        if key2_has(m@, x, y) {
                            let i = key2_idx(m@, x, y);
                            let i0 = if i < j as int { i } else { i + 1 };
                            assert(m@[i] == s0[i0]);
                            assert(s0[i0].0@ == x && s0[i0].1@ == y);
                            lemma_key2_idx_is(s0, i0);
                            lemma_key2_idx_is(m@, i);
                        } else if key2_has(s0, x, y) {
                            let i0 = key2_idx(s0, x, y);
                            assert(s0[i0].0@ == x && s0[i0].1@ == y);
                            assert(i0 != j as int);
                            let i = if i0 < j as int { i0 } else { i0 - 1 };
                            assert(m@[i] == s0[i0]);
                        }
                    }
                }
            }
        },
    }
}

/// Inserts a fresh name at its lexicographic position, keeping the map
/// strictly sorted.  Existing entries keep their values.
pub(crate) fn insert_name(names: &mut Vec<(String, u64)>, key: String, gid: u64)
    requires
        names_sorted(old(names)@),
        !key_has(old(names)@, key@),
    ensures
        names_sorted(final(names)@),
        final(names)@.len() == old(names)@.len() + 1,
        key_has(final(names)@, key@),
        key_val(final(names)@, key@) == gid,
        exists|p: int|
            0 <= p <= old(names)@.len() && final(names)@ == old(names)@.insert(p, (key, gid)),
        forall|k: Seq<char>|
            k != key@ ==> #[trigger] key_has(final(names)@, k) == key_has(old(names)@, k),
        forall|k: Seq<char>|
            k != key@ && key_has(old(names)@, k) ==> #[trigger] key_val(final(names)@, k)
                == key_val(old(names)@, k),
{
    let ghost s0 = names@;
    proof {
        crate::model::lemma_names_sorted_unique(s0);
    }
    let n: usize = names.len();
    let mut p: usize = 0;
    while p < n && crate::text::str_lex_lt(names[p].0.as_str(), key.as_str())
        invariant
            0 <= p <= n,
            n == names@.len(),
            names@ == s0,
            forall|i: int| 0 <= i < p ==> lex_lt(s0[i].0@, key@),
        decreases n - p,
    {
        p = p + 1;
    }
    proof {
        assert forall|j: int| p <= j < s0.len() implies lex_lt(key@, s0[j].0@) by {
            assert(!lex_lt(s0[p as int].0@, key@));
            assert(s0[p as int].0@ != key@);
            lemma_lex_lt_trichotomy(s0[p as int].0@, key@);
            if j > p {
                lemma_lex_lt_transitive(key@, s0[p as int].0@, s0[j].0@);
            }
        }
    }
    names.insert(p, (key, gid));
    proof {
        let s1 = names@;
        assert(s1 == s0.insert(p as int, (key, gid)));
        assert(forall|i: int| 0 <= i < p ==> s1[i] == s0[i]);
        assert(s1[p as int] == (key, gid));
        assert(forall|i: int| p < i < s1.len() ==> s1[i] == s0[i - 1]);
        assert forall|a: int, b: int| 0 <= a < b < s1.len() implies lex_lt(s1[a].0@, s1[b].0@) by {
            if a < p as int && b < p as int {
            } else if a < p as int && b == p as int {
                assert(lex_lt(s0[a].0@, key@));
            } else if a == p as int && b > p as int {
                assert(lex_lt(key@, s0[b - 1].0@));
            } else if a < p as int && b > p as int {
                assert(s1[a] == s0[a] && s1[b] == s0[b - 1]);
            } else if a > p as int {
                assert(s1[a] == s0[a - 1] && s1[b] == s0[b - 1]);
            }
        }
        crate::model::lemma_names_sorted_unique(s1);
        lemma_key_idx_is(s1, p as int);
        assert forall|k: Seq<char>| k != key@ implies #[trigger] key_has(s1, k) == key_has(
            s0,
            k,
        ) by {
            if key_has(s1, k) {
                let i = key_idx(s1, k);
                let i0 = if i < p as int { i } else { i - 1 };
                assert(i != p as int);
                assert(s0[i0].0@ == k);
            }
            if key_has(s0, k) {
                let i0 = key_idx(s0, k);
                assert(s0[i0].0@ == k);
                let i = if i0 < p as int { i0 } else { i0 + 1 };
                assert(s1[i].0@ == k);
            }
        }
        assert forall|k: Seq<char>| k != key@ && key_has(s0, k) implies #[trigger] key_val(s1, k)
            == key_val(s0, k) by {
            let i0 = key_idx(s0, k);
            assert(s0[i0].0@ == k);
            let i = if i0 < p as int { i0 } else { i0 + 1 };
            assert(s1[i] == s0[i0]);
            lemma_key_idx_is(s0, i0);
            lemma_key_idx_is(s1, i);
        }
    }
}

/// Finds the position of a live record by its numeric id.
pub(crate) fn find_link(links: &Vec<(u64, CyberlinkState)>, gid: u64) -> (r: Option<usize>)
    requires
        links_sorted(links@),
    ensures
        match r {
            Option::Some(i) => i < links@.len() && links@[i as int].0 == gid && has_gid(
                links@,
                gid,
            ) && gid_idx(links@, gid) == i as int && link_of(links@, gid) == links@[i as int].1,
            Option::None => !has_gid(links@, gid),
        },
{
    let n: usize = links.len();
    let mut i: usize = 0;
    while i < n
        invariant
            0 <= i <= n,
            n == links@.len(),
            links_sorted(links@),
            forall|j: int| 0 <= j < i ==> links@[j].0 != gid,
        decreases n - i,
    {
        if links[i].0 == gid {
            proof {
                lemma_gid_idx_is(links@, i as int);
            }
            return Option::Some(i);
        }
        i = i + 1;
    }
    proof {
        if has_gid(links@, gid) {
            let w = gid_idx(links@, gid);
            assert(links@[w].0 == gid);
        }
    }
    Option::None
}

/// Reports whether `gid` is in the tombstone list.
pub(crate) fn del_contains(d: &Vec<u64>, gid: u64) -> (r: bool)
    ensures
        r == del_has(d@, gid),
{
    let n: usize = d.len();
    let mut i: usize = 0;
    while i < n
        invariant
            0 <= i <= n,
            n == d@.len(),
            forall|j: int| 0 <= j < i ==> d@[j] != gid,
        decreases n - i,
    {
        if d[i] == gid {
            return true;
        }
        i = i + 1;
    }
    proof {
        if del_has(d@, gid) {
            let w = choose|w: int| 0 <= w < d@.len() && d@[w] == gid;
            assert(d@[w] == gid);
        }
    }
    false
}

/// The whole persistent state of the graph store.
pub struct GraphStore {
    /// Capability configuration.
    pub config: Config,
    /// The last numeric id handed out; ids start at 1.
    pub last_gid: u64,
    /// Live records, strictly ascending by numeric id.
    pub links: Vec<(u64, CyberlinkState)>,
    /// Formatted id to numeric id, strictly ascending by name; entries are
    /// never removed or reassigned.
    pub names: Vec<(String, u64)>,
    /// Numeric ids of soft-deleted records.
    pub deleted: Vec<u64>,
    /// Per-type sequence counters behind auto-generated formatted ids.
    pub type_seqs: Vec<(String, u64)>,
    /// Live links per owner; a counter at zero is removed.
    pub owner_counts: Vec<(String, u64)>,
    /// Live links per type.
    pub type_counts: Vec<(String, u64)>,
    /// Live links per owner and type.
    pub owner_type_counts: Vec<(String, String, u64)>,
}

/// Membership test for the owner counter: the record belongs to `o`.
pub open spec fn owner_pred(o: Seq<char>) -> spec_fn((u64, CyberlinkState)) -> bool {
    |p: (u64, CyberlinkState)| p.1.owner@ == o
}

/// Membership test for the type counter: the record is of type `t`.
pub open spec fn type_pred(t: Seq<char>) -> spec_fn((u64, CyberlinkState)) -> bool {
    |p: (u64, CyberlinkState)| p.1.type_@ == t
}

/// Membership test for the owner-and-type counter.
pub open spec fn owner_type_pred(o: Seq<char>, t: Seq<char>) -> spec_fn(
    (u64, CyberlinkState),
) -> bool {
    |p: (u64, CyberlinkState)| p.1.owner@ == o && p.1.type_@ == t
}

impl GraphStore {
    /// Number of live links owned by `o`.
    pub open spec fn live_owned(self, o: Seq<char>) -> nat {
        count_by(self.links@, owner_pred(o))
    }

    /// Number of live links of type `t`.
    pub open spec fn live_typed(self, t: Seq<char>) -> nat {
        count_by(self.links@, type_pred(t))
    }

    /// Number of live links of type `t` owned by `o`.
    pub open spec fn live_owned_typed(self, o: Seq<char>, t: Seq<char>) -> nat {
        count_by(self.links@, owner_type_pred(o, t))
    }

    /// The numeric id a formatted id resolves to, if any.
    pub open spec fn name_gid(self, k: Seq<char>) -> Option<u64> {
        if key_has(self.names@, k) {
            Option::Some(key_val(self.names@, k))
        } else {
            Option::None
        }
    }

    /// The id has been soft-deleted.
    pub open spec fn is_deleted(self, gid: u64) -> bool {
        del_has(self.deleted@, gid)
    }

    /// The id maps to a live record.
    pub open spec fn is_live(self, gid: u64) -> bool {
        has_gid(self.links@, gid)
    }

    /// The live record under `gid` (meaningful when `is_live`).
    pub open spec fn live_link(self, gid: u64) -> CyberlinkState {
        link_of(self.links@, gid)
    }

    /// The per-type sequence counter of `t`, zero when untouched.
    pub open spec fn type_seq(self, t: Seq<char>) -> u64 {
        map_val(self.type_seqs@, t)
    }

    /// `k` resolves to a live record.
    pub open spec fn name_live(self, k: Seq<char>) -> bool {
        key_has(self.names@, k) && self.is_live(key_val(self.names@, k))
    }

    /// The record a live formatted id resolves to.
    pub open spec fn named_link(self, k: Seq<char>) -> CyberlinkState {
        self.live_link(key_val(self.names@, k))
    }

    /// Everything except the capability configuration is unchanged.
    pub open spec fn same_store(self, other: GraphStore) -> bool {
        &&& self.last_gid == other.last_gid
        &&& self.links@ == other.links@
        &&& self.names@ == other.names@
        &&& self.deleted@ == other.deleted@
        &&& self.type_seqs@ == other.type_seqs@
        &&& self.owner_counts@ == other.owner_counts@
        &&& self.type_counts@ == other.type_counts@
        &&& self.owner_type_counts@ == other.owner_type_counts@
    }

    /// Nothing at all is changed.
    pub open spec fn same_state(self, other: GraphStore) -> bool {
        &&& self.same_store(other)
        &&& self.config.admins@ == other.config.admins@
        &&& self.config.executors@ == other.config.executors@
    }

    /// The well-formedness invariant every operation preserves.
    pub open spec fn wf(self) -> bool {
        &&& links_sorted(self.links@)
        &&& forall|i: int|
            0 <= i < self.links@.len() ==> 1 <= (#[trigger] self.links@[i]).0
                && self.links@[i].0 <= self.last_gid
        &&& names_sorted(self.names@)
        &&& forall|i: int|
            0 <= i < self.names@.len() ==> has_gid(self.links@, (#[trigger] self.names@[i]).1)
                || del_has(self.deleted@, self.names@[i].1)
        &&& forall|i: int|
            0 <= i < self.links@.len() ==> !del_has(self.deleted@, (#[trigger] self.links@[i]).0)
        &&& forall|i: int|
            0 <= i < self.deleted@.len() ==> 1 <= (#[trigger] self.deleted@[i])
                && self.deleted@[i] <= self.last_gid
        &&& keys_unique(self.type_seqs@)
        &&& forall|i: int|
            0 <= i < self.type_seqs@.len() ==> 1 <= (#[trigger] self.type_seqs@[i]).1
                && self.type_seqs@[i].1 <= self.last_gid
        &&& forall|t: Seq<char>, k: nat|
            k > map_val(self.type_seqs@, t) ==> !(#[trigger] key_has(
                self.names@,
                auto_fid(t, k),
            ))
        &&& keys_unique(self.owner_counts@)
        &&& forall|i: int| 0 <= i < self.owner_counts@.len() ==> (#[trigger] self.owner_counts@[i]).1 >= 1
        &&& forall|o: Seq<char>| #[trigger] map_val(self.owner_counts@, o) == self.live_owned(o)
        &&& keys_unique(self.type_counts@)
        &&& forall|i: int| 0 <= i < self.type_counts@.len() ==> (#[trigger] self.type_counts@[i]).1 >= 1
        &&& forall|t: Seq<char>| #[trigger] map_val(self.type_counts@, t) == self.live_typed(t)
        &&& keys2_unique(self.owner_type_counts@)
        &&& forall|i: int|
            0 <= i < self.owner_type_counts@.len() ==> (#[trigger] self.owner_type_counts@[i]).2
                >= 1
        &&& forall|o: Seq<char>, t: Seq<char>| #[trigger] map2_val(self.owner_type_counts@, o, t)
            == self.live_owned_typed(o, t)
    }

    /// A fresh store holding nothing but its configuration.
    pub fn empty(config: Config) -> (s: GraphStore)
        ensures
            s.wf(),
            s.last_gid == 0,
            s.links@.len() == 0,
            s.names@.len() == 0,
            s.deleted@.len() == 0,
            s.type_seqs@.len() == 0,
            s.config == config,
    {
        let s = GraphStore {
            config,
            last_gid: 0,
            links: Vec::new(),
            names: Vec::new(),
            deleted: Vec::new(),
            type_seqs: Vec::new(),
            owner_counts: Vec::new(),
            type_counts: Vec::new(),
            owner_type_counts: Vec::new(),
        };
        proof {
            assert forall|o: Seq<char>| #[trigger] map_val(s.owner_counts@, o) == s.live_owned(o) by {
                assert(s.live_owned(o) == 0);
            }
            assert forall|t: Seq<char>| #[trigger] map_val(s.type_counts@, t) == s.live_typed(t) by {
                assert(s.live_typed(t) == 0);
            }
            assert forall|o: Seq<char>, t: Seq<char>| #[trigger] map2_val(s.owner_type_counts@, o, t)
                == s.live_owned_typed(o, t) by {
                assert(s.live_owned_typed(o, t) == 0);
            }
        }
        s
    }
}

} // verus!
