//! The store's global laws, stated over the model and proved from the
//! well-formedness invariant and the operations' contracts.

use vstd::prelude::*;
use crate::model::{
    count_by, del_has, gid_idx, has_gid, key_has, key_val, lemma_count_by_push,
    lemma_gid_idx_is, links_sorted, map2_val, map_val,
};
use crate::msg::Cyberlink;
use crate::query::{cursor_pred, page_by, take_at_most};
use crate::state::{owner_pred, owner_type_pred, type_pred, CyberlinkState, GraphStore};
use crate::text::auto_fid;

verus! {

/// The record carries the numeric id `g`.
pub open spec fn gid_pred(g: u64) -> spec_fn((u64, CyberlinkState)) -> bool {
    |x: (u64, CyberlinkState)| x.0 == g
}

/// Id monotonicity: every id the store has ever assigned, live or
/// tombstoned, lies at or below `last_gid`; any id above it is fresh.  A
/// creation returns `last_gid + 1`, so a run of creations returns exactly
/// the next ids in order, strictly increasing, never reused.
pub proof fn lemma_fresh_gid(s: GraphStore, gid: u64)
    requires
        s.wf(),
        gid > s.last_gid,
    ensures
        !s.is_live(gid),
        !s.is_deleted(gid),
        forall|i: int| 0 <= i < s.links@.len() ==> (#[trigger] s.links@[i]).0 < gid,
{
    if s.is_live(gid) {
        let w = gid_idx(s.links@, gid);
        assert(s.links@[w].0 == gid);
    }
    if s.is_deleted(gid) {
        let w = choose|w: int| 0 <= w < s.deleted@.len() && s.deleted@[w] == gid;
        assert(s.deleted@[w] == gid);
    }
}

/// Formatted-id freshness: for any type, every auto-generated id above the
/// type's current sequence number is still unmapped, so the ids handed out
/// for a type are `T:1, T:2, ...` with no reuse; together with
/// `lemma_auto_fid_injective` the auto-generated ids are unique across
/// types as well.
pub proof fn lemma_auto_fid_fresh(s: GraphStore, t: Seq<char>, n: nat)
    requires
        s.wf(),
        n > s.type_seq(t),
    ensures
        !key_has(s.names@, auto_fid(t, n)),
{
    assert(!key_has(s.names@, auto_fid(t, n)));
}

/// Tombstone permanence: a formatted id whose record was deleted never
/// resolves to a live record again.  Deletion keeps the name map intact,
/// creation refuses an existing name, and no operation shrinks the
/// tombstone set, so the resolution stays "deleted" forever.
pub proof fn lemma_tombstone_blocks(s: GraphStore, f: Seq<char>)
    requires
        s.wf(),
        key_has(s.names@, f),
        s.is_deleted(key_val(s.names@, f)),
    ensures
        !s.name_live(f),
{
    let gid = key_val(s.names@, f);
    if s.is_live(gid) {
        let w = gid_idx(s.links@, gid);
        assert(s.links@[w].0 == gid);
        assert(!del_has(s.deleted@, s.links@[w].0));
    }
}

/// Type-constraint soundness: when a candidate's endpoints and type all
/// resolve, and the declared type constrains `from` to something other
/// than `"Any"`, validation accepts exactly the candidates whose `from`
/// endpoint is of the constrained type (and whose `to` side passes its own
/// check); a mismatch is a conflict.
pub proof fn lemma_type_constraint_soundness(s: GraphStore, c: Cyberlink)
    requires
        s.wf(),
        !GraphStore::pair_invalid(c),
        s.type_resolves(c),
        s.from_resolves(c),
        s.to_resolves(c),
        c.from is Some,
        c.to is Some,
        s.named_link(c.type_@).from@ != "Any"@,
    ensures
        s.validate_ok(c) <==> (s.named_link(crate::execute::some_view(c.from)).type_@
            == s.named_link(c.type_@).from@ && !s.to_conflict(c)),
{
}

/// Counter consistency: after any run of creations and deletions, each of
/// the three persisted counter maps reads exactly the number of live links
/// in its class — per owner, per type, and per owner and type — with an
/// absent counter reading zero.
pub proof fn lemma_counter_consistency(s: GraphStore)
    requires
        s.wf(),
    ensures
        forall|o: Seq<char>| #[trigger] map_val(s.owner_counts@, o) == s.live_owned(o),
        forall|t: Seq<char>| #[trigger] map_val(s.type_counts@, t) == s.live_typed(t),
        forall|o: Seq<char>, t: Seq<char>| #[trigger] map2_val(s.owner_type_counts@, o, t)
            == s.live_owned_typed(o, t),
{
}

/// How often an id occurs in an index scan.
pub open spec fn id_count(s: Seq<(u64, CyberlinkState)>, g: u64) -> nat {
    count_by(s, gid_pred(g))
}

/// In a sequence with strictly increasing ids, a filtered scan holds `g`
/// exactly once when the record under `g` is live and selected, and not at
/// all otherwise.
pub proof fn lemma_id_count_filter(
    s: Seq<(u64, CyberlinkState)>,
    p: spec_fn((u64, CyberlinkState)) -> bool,
    g: u64,
)
    requires
        links_sorted(s),
    ensures
        id_count(s.filter(p), g) == (if has_gid(s, g) && p(s[gid_idx(s, g)]) {
            1nat
        } else {
            0nat
        }),
    decreases s.len(),
{
    reveal(Seq::filter);
    if s.len() == 0 {
        if has_gid(s, g) {
            let w = gid_idx(s, g);
            assert(s[w].0 == g);
        }
    } else {
        let s0 = s.drop_last();
        let y = s.last();
        lemma_id_count_filter(s0, p, g);
        if p(y) {
            lemma_count_by_push(s0.filter(p), gid_pred(g), y);
            assert(s.filter(p) == s0.filter(p).push(y));
        } else {
            assert(s.filter(p) == s0.filter(p));
        }
        if y.0 == g {
            lemma_gid_idx_is(s, s.len() - 1);
            assert(!has_gid(s0, g)) by {
                if has_gid(s0, g) {
                    let w = gid_idx(s0, g);
                    assert(s0[w].0 == g);
                    assert(s[w].0 == g);
                    assert(s[w].0 < s[s.len() - 1].0);
                }
            }
        } else {
            if has_gid(s0, g) {
                let w = gid_idx(s0, g);
                assert(s0[w].0 == g);
                assert(s[w] == s0[w]);
                lemma_gid_idx_is(s, w);
                lemma_gid_idx_is(s0, w);
            } else {
                if has_gid(s, g) {
                    let w = gid_idx(s, g);
                    assert(s[w].0 == g);
                    assert(w < s.len() - 1 ==> s0[w].0 == g);
                }
            }
        }
    }
}

/// Index/primary agreement, live side: a live link occurs exactly once in
/// the scan of each secondary index it belongs to — its owner's partition,
/// its type's, its `from`'s and its `to`'s.
pub proof fn lemma_index_primary_agreement(s: GraphStore, gid: u64)
    requires
        s.wf(),
        s.is_live(gid),
    ensures
        id_count(s.links@.filter(owner_pred(s.live_link(gid).owner@)), gid) == 1,
        id_count(s.links@.filter(type_pred(s.live_link(gid).type_@)), gid) == 1,
        id_count(s.links@.filter(crate::query::from_pred(s.live_link(gid).from@)), gid) == 1,
        id_count(s.links@.filter(crate::query::to_pred(s.live_link(gid).to@)), gid) == 1,
{
    let l = s.live_link(gid);
    lemma_id_count_filter(s.links@, owner_pred(l.owner@), gid);
    lemma_id_count_filter(s.links@, type_pred(l.type_@), gid);
    lemma_id_count_filter(s.links@, crate::query::from_pred(l.from@), gid);
    lemma_id_count_filter(s.links@, crate::query::to_pred(l.to@), gid);
}

/// Index/primary agreement, deleted side: an id that is not live — in
/// particular a soft-deleted one — occurs in no index scan at all.
pub proof fn lemma_index_free_of_dead(
    s: GraphStore,
    gid: u64,
    p: spec_fn((u64, CyberlinkState)) -> bool,
)
    requires
        s.wf(),
        !s.is_live(gid),
    ensures
        id_count(s.links@.filter(p), gid) == 0,
{
    lemma_id_count_filter(s.links@, p, gid);
}

/// The concatenation of single-record pages, each starting where the one
/// before ended.
pub open spec fn chain_pages(
    s: Seq<(u64, CyberlinkState)>,
    p: spec_fn((u64, CyberlinkState)) -> bool,
    a: Option<u64>,
    fuel: nat,
) -> Seq<(u64, CyberlinkState)>
    decreases fuel,
{
    if fuel == 0 {
        Seq::<(u64, CyberlinkState)>::empty()
    } else {
        let pg = page_by(s, p, a, 1);
        if pg.len() == 0 {
            Seq::<(u64, CyberlinkState)>::empty()
        } else {
            pg + chain_pages(s, p, Option::Some(pg[0].0), (fuel - 1) as nat)
        }
    }
}

/// Every record of a filtered scan comes from the scanned sequence.
proof fn lemma_filter_elem_source<A>(s: Seq<A>, pred: spec_fn(A) -> bool, i: int)
    requires
        0 <= i < s.filter(pred).len(),
    ensures
        exists|j: int| 0 <= j < s.len() && s[j] == s.filter(pred)[i],
    decreases s.len(),
{
    reveal(Seq::filter);
    if s.len() == 0 {
    } else {
        let f0 = s.drop_last().filter(pred);
        if pred(s.last()) && i == s.filter(pred).len() - 1 {
            assert(s.filter(pred)[i] == s.last());
            assert(s[s.len() - 1] == s.filter(pred)[i]);
        } else {
            assert(s.filter(pred)[i] == f0[i]);
            lemma_filter_elem_source(s.drop_last(), pred, i);
            let j = choose|j: int| 0 <= j < s.drop_last().len() && s.drop_last()[j] == f0[i];
            assert(s[j] == s.filter(pred)[i]);
        }
    }
}

/// One step of cursor pagination: a page of one record is the first
/// selected record, and restarting the scan after its id selects exactly
/// the remaining records.
pub proof fn lemma_pagination_step(
    s: Seq<(u64, CyberlinkState)>,
    p: spec_fn((u64, CyberlinkState)) -> bool,
    a: Option<u64>,
)
    requires
        links_sorted(s),
    ensures
        s.filter(cursor_pred(p, a)).len() == 0 ==> page_by(s, p, a, 1) == Seq::<
            (u64, CyberlinkState),
        >::empty(),
        s.filter(cursor_pred(p, a)).len() > 0 ==> {
            let f = s.filter(cursor_pred(p, a));
            page_by(s, p, a, 1) == seq![f[0]] && s.filter(cursor_pred(p, Option::Some(f[0].0)))
                == f.drop_first()
        },
    decreases s.len(),
{
    reveal(Seq::filter);
    let sel = cursor_pred(p, a);
    if s.len() == 0 {
    } else {
        let s0 = s.drop_last();
        let y = s.last();
        lemma_pagination_step(s0, p, a);
        let f0 = s0.filter(sel);
        let f = s.filter(sel);
        if sel(y) {
            assert(f == f0.push(y));
        } else {
            assert(f == f0);
        }
        if f.len() > 0 {
            if f0.len() == 0 {
                assert(sel(y));
                assert(f =~= seq![y]);
                assert(f[0] == y);
                assert(page_by(s, p, a, 1) =~= seq![y]);
                let sel2 = cursor_pred(p, Option::Some(y.0));
                assert forall|i: int| 0 <= i < s.len() implies !sel2(s[i]) by {
                    if i < s.len() - 1 {
                        assert(s[i].0 < y.0);
                    } else {
                        assert(s[i] == y);
                    }
                }
                s.lemma_all_neg_filter_empty(sel2);
                assert(f.drop_first() =~= Seq::<(u64, CyberlinkState)>::empty());
            } else {
                assert(f[0] == f0[0]);
                let c0 = f0[0].0;
                let sel2 = cursor_pred(p, Option::Some(c0));
                assert(s0.filter(sel2) == f0.drop_first());
                // the head of the page is a record of the store
                lemma_filter_elem_source(s0, sel, 0);
                let wi = choose|wi: int| 0 <= wi < s0.len() && s0[wi] == f0[0];
                assert(s0[wi].0 < y.0);
                if sel2(y) {
                    assert(sel(y));
                    assert(s.filter(sel2) == s0.filter(sel2).push(y));
                    assert(f.drop_first() =~= f0.drop_first().push(y));
                } else {
                    assert(s.filter(sel2) == s0.filter(sel2));
                    if sel(y) {
                        assert(y.0 > c0);
                        assert(p(y));
                        assert(sel2(y));
                        assert(false);
                    }
                    assert(f.drop_first() =~= f0.drop_first());
                }
                // the one-record page is the head in both cases
                assert(take_at_most(f, 1) =~= seq![f[0]]);
                assert(take_at_most(f0, 1) =~= seq![f0[0]]);
            }
        }
        if f.len() == 0 {
            assert(take_at_most(f, 1) == f);
        } else {
            assert(take_at_most(f, 1) =~= seq![f[0]]);
        }
    }
}

/// Pagination completeness: scanning with a page size of one and chaining
/// each `start_after` cursor to the id just returned reproduces the whole
/// unbounded scan, record for record and in order.
pub proof fn lemma_pagination_complete(
    s: Seq<(u64, CyberlinkState)>,
    p: spec_fn((u64, CyberlinkState)) -> bool,
    a: Option<u64>,
    fuel: nat,
)
    requires
        links_sorted(s),
        fuel >= s.filter(cursor_pred(p, a)).len(),
    ensures
        chain_pages(s, p, a, fuel) == s.filter(cursor_pred(p, a)),
    decreases fuel,
{
    let f = s.filter(cursor_pred(p, a));
    lemma_pagination_step(s, p, a);
    if f.len() == 0 {
        assert(chain_pages(s, p, a, fuel) =~= f);
    } else {
        assert(fuel > 0);
        let pg = page_by(s, p, a, 1);
        assert(pg == seq![f[0]]);
        let rest = s.filter(cursor_pred(p, Option::Some(f[0].0)));
        assert(rest == f.drop_first());
        lemma_pagination_complete(s, p, Option::Some(f[0].0), (fuel - 1) as nat);
        assert(chain_pages(s, p, a, fuel) == pg + rest);
        assert(pg + f.drop_first() =~= f);
    }
}

} // verus!
