//! The read-only queries: point lookups by numeric or formatted id,
//! paginated scans of the primary order and of each secondary ordering,
//! lenient set lookups, time-window scans and aggregate counts.

use vstd::prelude::*;
use crate::error::ContractError;
use crate::msg::CountsResponse;
use crate::model::{
    key_has, key_idx, key_val, lemma_names_sorted_unique, map2_val, map_val,
};
use crate::state::{
    assoc_lookup, del_contains, find_link, owner_pred, owner_type_pred, type_pred,
    CyberlinkState, GraphStore,
};
use crate::text::{dec_str, lex_lt, u64_to_dec};

verus! {

/// Capability configuration as the caller reads it.
pub struct ConfigResponse {
    pub admins: Vec<String>,
    pub executors: Vec<String>,
}

/// The raw persisted state: live records in id order, and the whole
/// formatted-id map in name order.
pub struct StateResponse {
    pub cyberlinks: Vec<(u64, CyberlinkState)>,
    pub named_cyberlinks: Vec<(String, u64)>,
}

/// Which secondary ordering a scan walks.
pub enum LinkFilter {
    All,
    ByOwner(String),
    ByType(String),
    ByFrom(String),
    ByTo(String),
    ByOwnerType(String, String),
}

/// The record's `from` endpoint reads `s`.
pub open spec fn from_pred(s: Seq<char>) -> spec_fn((u64, CyberlinkState)) -> bool {
    |p: (u64, CyberlinkState)| p.1.from@ == s
}

/// The record's `to` endpoint reads `s`.
pub open spec fn to_pred(s: Seq<char>) -> spec_fn((u64, CyberlinkState)) -> bool {
    |p: (u64, CyberlinkState)| p.1.to@ == s
}

/// The membership test a filter stands for.
pub open spec fn filter_pred(f: LinkFilter) -> spec_fn((u64, CyberlinkState)) -> bool {
    match f {
        LinkFilter::All => |p: (u64, CyberlinkState)| true,
        LinkFilter::ByOwner(o) => owner_pred(o@),
        LinkFilter::ByType(t) => type_pred(t@),
        LinkFilter::ByFrom(s) => from_pred(s@),
        LinkFilter::ByTo(s) => to_pred(s@),
        LinkFilter::ByOwnerType(o, t) => owner_type_pred(o@, t@),
    }
}

/// The filter together with the exclusive numeric-id cursor.
pub open spec fn cursor_pred(
    p: spec_fn((u64, CyberlinkState)) -> bool,
    start_after: Option<u64>,
) -> spec_fn((u64, CyberlinkState)) -> bool {
    |x: (u64, CyberlinkState)|
        p(x) && (match start_after {
            Option::Some(a) => x.0 > a,
            Option::None => true,
        })
}

/// The first `limit` elements, or everything when there are fewer.
pub open spec fn take_at_most<A>(s: Seq<A>, limit: nat) -> Seq<A> {
    if limit <= s.len() {
        s.take(limit as int)
    } else {
        s
    }
}

/// One page of an id-ordered scan: the matching records above the cursor,
/// in id order, capped at `limit`.
pub open spec fn page_by(
    s: Seq<(u64, CyberlinkState)>,
    p: spec_fn((u64, CyberlinkState)) -> bool,
    start_after: Option<u64>,
    limit: nat,
) -> Seq<(u64, CyberlinkState)> {
    take_at_most(s.filter(cursor_pred(p, start_after)), limit)
}

/// The page size a caller's `limit` stands for: capped at `MAX_LIMIT`,
/// defaulting to `DEFAULT_LIMIT`.
pub open spec fn spec_limit(limit: Option<u32>) -> nat {
    match limit {
        Option::Some(v) => if v > crate::MAX_LIMIT {
            crate::MAX_LIMIT as nat
        } else {
            v as nat
        },
        Option::None => crate::DEFAULT_LIMIT as nat,
    }
}

/// Resolves a caller's page limit.
pub(crate) fn effective_limit(limit: Option<u32>) -> (r: usize)
    ensures
        r == spec_limit(limit),
{
    match limit {
        Option::Some(v) => if v > crate::MAX_LIMIT {
            crate::MAX_LIMIT as usize
        } else {
            v as usize
        },
        Option::None => crate::DEFAULT_LIMIT as usize,
    }
}

/// Decides the membership test of a filter for one record.
fn link_matches(f: &LinkFilter, x: &(u64, CyberlinkState)) -> (r: bool)
    ensures
        r == filter_pred(*f)(*x),
{
    match f {
        LinkFilter::All => true,
        LinkFilter::ByOwner(o) => crate::text::str_eq(x.1.owner.as_str(), o.as_str()),
        LinkFilter::ByType(t) => crate::text::str_eq(x.1.type_.as_str(), t.as_str()),
        LinkFilter::ByFrom(s) => crate::text::str_eq(x.1.from.as_str(), s.as_str()),
        LinkFilter::ByTo(s) => crate::text::str_eq(x.1.to.as_str(), s.as_str()),
        LinkFilter::ByOwnerType(o, t) => crate::text::str_eq(x.1.owner.as_str(), o.as_str())
            && crate::text::str_eq(x.1.type_.as_str(), t.as_str()),
    }
}

/// Walks the id-ordered records and collects one page.
pub(crate) fn scan_links(
    links: &Vec<(u64, CyberlinkState)>,
    f: &LinkFilter,
    start_after: Option<u64>,
    limit: usize,
) -> (r: Vec<(u64, CyberlinkState)>)
    ensures
        r@ == page_by(links@, filter_pred(*f), start_after, limit as nat),
{
    let ghost sel = cursor_pred(filter_pred(*f), start_after);
    let mut out: Vec<(u64, CyberlinkState)> = Vec::new();
    let n: usize = links.len();
    let mut i: usize = 0;
    proof {
        reveal(Seq::filter);
        assert(links@.take(0) =~= Seq::<(u64, CyberlinkState)>::empty());
        assert(links@.take(0).filter(sel) =~= Seq::<(u64, CyberlinkState)>::empty());
    }
    while i < n && out.len() < limit
        invariant
            0 <= i <= n,
            n == links@.len(),
            sel == cursor_pred(filter_pred(*f), start_after),
            out@.len() <= limit,
            out@ == links@.take(i as int).filter(sel),
        decreases n - i,
    {
        let keep = match start_after {
            Option::Some(a) => links[i].0 > a && link_matches(f, &links[i]),
            Option::None => link_matches(f, &links[i]),
        };
        if keep {
            let st = links[i].1.clone();
            out.push((links[i].0, st));
        }
        proof {
            let x = links@[i as int];
            assert(x == (x.0, x.1));
            assert(keep == sel(x));
            assert(links@.take(i + 1) =~= links@.take(i as int).push(x));
            links@.take(i as int).lemma_filter_push(x, sel);
        }
        i = i + 1;
    }
    proof {
        let full = links@.filter(sel);
        if i == n {
            assert(links@.take(n as int) =~= links@);
            if limit <= full.len() {
                assert(out@ =~= full.take(limit as int));
            }
        } else {
            assert(out@.len() == limit);
            assert(links@ =~= links@.take(i as int) + links@.skip(i as int));
            Seq::filter_distributes_over_add(links@.take(i as int), links@.skip(i as int), sel);
            assert(full == out@ + links@.skip(i as int).filter(sel));
            assert(full.take(limit as int) =~= out@);
        }
    }
    out
}

/// Clones a string vector, keeping the values.
pub(crate) fn clone_string_vec(v: &Vec<String>) -> (r: Vec<String>)
    ensures
        r@ == v@,
{
    let mut out: Vec<String> = Vec::new();
    let n: usize = v.len();
    let mut i: usize = 0;
    while i < n
        invariant
            0 <= i <= n,
            n == v@.len(),
            out@ == v@.take(i as int),
        decreases n - i,
    {
        out.push(v[i].clone());
        proof {
            assert(v@.take(i + 1) =~= v@.take(i as int).push(v@[i as int]));
        }
        i = i + 1;
    }
    proof {
        assert(v@.take(n as int) =~= v@);
    }
    out
}

/// Lenient point lookups over a list of numeric ids: the members that are
/// live, in the order given; deleted and unknown ids are skipped.
pub open spec fn set_by_gids_spec(s: GraphStore, ids: Seq<u64>) -> Seq<(u64, CyberlinkState)>
    decreases ids.len(),
{
    if ids.len() == 0 {
        Seq::<(u64, CyberlinkState)>::empty()
    } else {
        let rest = set_by_gids_spec(s, ids.drop_last());
        let g = ids.last();
        if !s.is_deleted(g) && s.is_live(g) {
            rest.push((g, s.live_link(g)))
        } else {
            rest
        }
    }
}

/// Lenient point lookups over a list of formatted ids.
pub open spec fn set_by_fids_spec(s: GraphStore, fids: Seq<String>) -> Seq<
    (String, CyberlinkState),
>
    decreases fids.len(),
{
    if fids.len() == 0 {
        Seq::<(String, CyberlinkState)>::empty()
    } else {
        let rest = set_by_fids_spec(s, fids.drop_last());
        let f = fids.last();
        if key_has(s.names@, f@) && !s.is_deleted(key_val(s.names@, f@)) && s.is_live(
            key_val(s.names@, f@),
        ) {
            rest.push((f, s.named_link(f@)))
        } else {
            rest
        }
    }
}

/// The name-map entries lying strictly after the cursor.
pub open spec fn name_after(a: Option<Seq<char>>) -> spec_fn((String, u64)) -> bool {
    |p: (String, u64)|
        match a {
            Option::Some(s) => lex_lt(s, p.0@),
            Option::None => true,
        }
}

/// The live records among some name-map entries, keyed by their names.
pub open spec fn live_named_spec(s: GraphStore, entries: Seq<(String, u64)>) -> Seq<
    (String, CyberlinkState),
>
    decreases entries.len(),
{
    if entries.len() == 0 {
        Seq::<(String, CyberlinkState)>::empty()
    } else {
        let rest = live_named_spec(s, entries.drop_last());
        let e = entries.last();
        if !s.is_deleted(e.1) && s.is_live(e.1) {
            rest.push((e.0, s.live_link(e.1)))
        } else {
            rest
        }
    }
}

impl GraphStore {
    /// The last numeric id handed out.
    pub fn query_last_gid(&self) -> (r: u64)
        ensures
            r == self.last_gid,
    {
        self.last_gid
    }

    /// Point lookup by numeric id; fails when the id is tombstoned or was
    /// never assigned.  The error carries the id in decimal.
    pub fn query_cyberlink_by_gid(&self, gid: u64) -> (r: Result<CyberlinkState, ContractError>)
        requires
            self.wf(),
        ensures
            match r {
                Result::Ok(st) => !self.is_deleted(gid) && self.is_live(gid) && st
                    == self.live_link(gid),
                Result::Err(e) => if self.is_deleted(gid) {
                    e matches ContractError::DeletedCyberlink { fid } && fid@ == dec_str(
                        gid as nat,
                    )
                } else {
                    !self.is_live(gid) && (e matches ContractError::NotFound { fid } && fid@
                        == dec_str(gid as nat))
                },
            },
    {
        if del_contains(&self.deleted, gid) {
            return Result::Err(ContractError::DeletedCyberlink { fid: u64_to_dec(gid) });
        }
        match find_link(&self.links, gid) {
            Option::None => Result::Err(ContractError::NotFound { fid: u64_to_dec(gid) }),
            Option::Some(i) => Result::Ok(self.links[i].1.clone()),
        }
    }

    /// Point lookup by formatted id; tells a name that never existed apart
    /// from one whose record was deleted.
    pub fn query_cyberlink_by_formatted_id(&self, formatted_id: String) -> (r: Result<
        CyberlinkState,
        ContractError,
    >)
        requires
            self.wf(),
        ensures
            match r {
                Result::Ok(st) => self.name_live(formatted_id@) && !self.is_deleted(
                    key_val(self.names@, formatted_id@),
                ) && st == self.named_link(formatted_id@),
                Result::Err(e) => if !key_has(self.names@, formatted_id@) {
                    e matches ContractError::NotFound { fid } && fid@ == formatted_id@
                } else {
                    self.is_deleted(key_val(self.names@, formatted_id@)) && (e
                        matches ContractError::DeletedCyberlink { fid } && fid@ == formatted_id@)
                },
            },
    {
        proof {
            lemma_names_sorted_unique(self.names@);
        }
        let gid = match assoc_lookup(&self.names, formatted_id.as_str()) {
            Option::None => {
                return Result::Err(ContractError::NotFound { fid: formatted_id });
            },
            Option::Some(g) => g,
        };
        if del_contains(&self.deleted, gid) {
            return Result::Err(ContractError::DeletedCyberlink { fid: formatted_id });
        }
        match find_link(&self.links, gid) {
            Option::None => {
                proof {
                    let i = key_idx(self.names@, formatted_id@);
                    assert(self.names@[i].1 == gid);
                    assert(false);
                }
                Result::Err(ContractError::NotFound { fid: formatted_id })
            },
            Option::Some(i) => Result::Ok(self.links[i].1.clone()),
        }
    }

    /// The capability configuration.
    pub fn query_config(&self) -> (r: ConfigResponse)
        ensures
            r.admins@ == self.config.admins@,
            r.executors@ == self.config.executors@,
    {
        ConfigResponse {
            admins: clone_string_vec(&self.config.admins),
            executors: clone_string_vec(&self.config.executors),
        }
    }

    /// The raw persisted state: every live record and the whole name map.
    pub fn query_state(&self) -> (r: StateResponse)
        ensures
            r.cyberlinks@ == self.links@,
            r.named_cyberlinks@ == self.names@,
    {
        let mut cyberlinks: Vec<(u64, CyberlinkState)> = Vec::new();
        let n: usize = self.links.len();
        let mut i: usize = 0;
        while i < n
            invariant
                0 <= i <= n,
                n == self.links@.len(),
                cyberlinks@ == self.links@.take(i as int),
            decreases n - i,
        {
            let st = self.links[i].1.clone();
            cyberlinks.push((self.links[i].0, st));
            proof {
                let x = self.links@[i as int];
                assert(x == (x.0, x.1));
                assert(self.links@.take(i + 1) =~= self.links@.take(i as int).push(x));
            }
            i = i + 1;
        }
        let mut named: Vec<(String, u64)> = Vec::new();
        let m: usize = self.names.len();
        let mut j: usize = 0;
        while j < m
            invariant
                0 <= j <= m,
                m == self.names@.len(),
                named@ == self.names@.take(j as int),
            decreases m - j,
        {
            let nm = self.names[j].0.clone();
            named.push((nm, self.names[j].1));
            proof {
                let x = self.names@[j as int];
                assert(x == (x.0, x.1));
                assert(self.names@.take(j + 1) =~= self.names@.take(j as int).push(x));
            }
            j = j + 1;
        }
        proof {
            assert(self.links@.take(n as int) =~= self.links@);
            assert(self.names@.take(m as int) =~= self.names@);
        }
        StateResponse { cyberlinks, named_cyberlinks: named }
    }

    /// One page of the primary scan, ascending by numeric id.
    pub fn query_cyberlinks_by_gids(&self, start_after: Option<u64>, limit: Option<u32>) -> (r:
        Vec<(u64, CyberlinkState)>)
        ensures
            r@ == page_by(
                self.links@,
                filter_pred(LinkFilter::All),
                start_after,
                spec_limit(limit),
            ),
    {
        scan_links(&self.links, &LinkFilter::All, start_after, effective_limit(limit))
    }

    /// One page of the owner index, ascending by numeric id.
    pub fn query_cyberlinks_by_owner(
        &self,
        owner: String,
        start_after: Option<u64>,
        limit: Option<u32>,
    ) -> (r: Vec<(u64, CyberlinkState)>)
        ensures
            r@ == page_by(self.links@, owner_pred(owner@), start_after, spec_limit(limit)),
    {
        scan_links(&self.links, &LinkFilter::ByOwner(owner), start_after, effective_limit(limit))
    }

    /// One page of the type index, ascending by numeric id.
    pub fn query_cyberlinks_by_type(
        &self,
        type_: String,
        start_after: Option<u64>,
        limit: Option<u32>,
    ) -> (r: Vec<(u64, CyberlinkState)>)
        ensures
            r@ == page_by(self.links@, type_pred(type_@), start_after, spec_limit(limit)),
    {
        scan_links(&self.links, &LinkFilter::ByType(type_), start_after, effective_limit(limit))
    }

    /// One page of the from-endpoint index, ascending by numeric id.
    pub fn query_cyberlinks_by_from(
        &self,
        from: String,
        start_after: Option<u64>,
        limit: Option<u32>,
    ) -> (r: Vec<(u64, CyberlinkState)>)
        ensures
            r@ == page_by(self.links@, from_pred(from@), start_after, spec_limit(limit)),
    {
        scan_links(&self.links, &LinkFilter::ByFrom(from), start_after, effective_limit(limit))
    }

    /// One page of the to-endpoint index, ascending by numeric id.
    pub fn query_cyberlinks_by_to(
        &self,
        to: String,
        start_after: Option<u64>,
        limit: Option<u32>,
    ) -> (r: Vec<(u64, CyberlinkState)>)
        ensures
            r@ == page_by(self.links@, to_pred(to@), start_after, spec_limit(limit)),
    {
        scan_links(&self.links, &LinkFilter::ByTo(to), start_after, effective_limit(limit))
    }

    /// One page of the composite owner-and-type index, ascending by id.
    pub fn query_cyberlinks_by_owner_and_type(
        &self,
        owner: String,
        type_: String,
        start_after: Option<u64>,
        limit: Option<u32>,
    ) -> (r: Vec<(u64, CyberlinkState)>)
        ensures
            r@ == page_by(
                self.links@,
                owner_type_pred(owner@, type_@),
                start_after,
                spec_limit(limit),
            ),
    {
        scan_links(
            &self.links,
            &LinkFilter::ByOwnerType(owner, type_),
            start_after,
            effective_limit(limit),
        )
    }

    /// The live members of an explicit list of numeric ids, in list order;
    /// deleted and unknown members are skipped, never an error.
    pub fn query_cyberlinks_set_by_gids(&self, gids: Vec<u64>) -> (r: Vec<(u64, CyberlinkState)>)
        requires
            self.wf(),
        ensures
            r@ == set_by_gids_spec(*self, gids@),
    {
        let mut out: Vec<(u64, CyberlinkState)> = Vec::new();
        let n: usize = gids.len();
        let mut i: usize = 0;
        proof {
            assert(gids@.take(0) =~= Seq::<u64>::empty());
        }
        while i < n
            invariant
                0 <= i <= n,
                n == gids@.len(),
                self.wf(),
                out@ == set_by_gids_spec(*self, gids@.take(i as int)),
            decreases n - i,
        {
            let g = gids[i];
            if !del_contains(&self.deleted, g) {
                match find_link(&self.links, g) {
                    Option::Some(j) => {
                        let st = self.links[j].1.clone();
                        out.push((g, st));
                    },
                    Option::None => {},
                }
            }
            proof {
                assert(gids@.take(i + 1).drop_last() =~= gids@.take(i as int));
                assert(gids@.take(i + 1).last() == gids@[i as int]);
            }
            i = i + 1;
        }
        proof {
            assert(gids@.take(n as int) =~= gids@);
        }
        out
    }

    /// The live members of an explicit list of formatted ids, in list
    /// order; unknown and deleted members are skipped, never an error.
    pub fn query_cyberlinks_set_by_ids(&self, ids: Vec<String>) -> (r: Vec<
        (String, CyberlinkState),
    >)
        requires
            self.wf(),
        ensures
            r@ == set_by_fids_spec(*self, ids@),
    {
        proof {
            lemma_names_sorted_unique(self.names@);
        }
        let mut out: Vec<(String, CyberlinkState)> = Vec::new();
        let n: usize = ids.len();
        let mut i: usize = 0;
        proof {
            assert(ids@.take(0) =~= Seq::<String>::empty());
        }
        while i < n
            invariant
                0 <= i <= n,
                n == ids@.len(),
                self.wf(),
                out@ == set_by_fids_spec(*self, ids@.take(i as int)),
            decreases n - i,
        {
            proof {
                lemma_names_sorted_unique(self.names@);
            }
            match assoc_lookup(&self.names, ids[i].as_str()) {
                Option::None => {},
                Option::Some(g) => {
                    if !del_contains(&self.deleted, g) {
                        match find_link(&self.links, g) {
                            Option::Some(j) => {
                                let st = self.links[j].1.clone();
                                out.push((ids[i].clone(), st));
                            },
                            Option::None => {},
                        }
                    }
                },
            }
            proof {
                assert(ids@.take(i + 1).drop_last() =~= ids@.take(i as int));
                assert(ids@.take(i + 1).last() == ids@[i as int]);
            }
            i = i + 1;
        }
        proof {
            assert(ids@.take(n as int) =~= ids@);
        }
        out
    }

    /// One page of the formatted-id scan, in name order: the page is cut
    /// from the name map first, then deleted records are skipped, exactly
    /// as a bounded scan over the persistent name map behaves.
    pub fn query_cyberlinks_by_ids(
        &self,
        start_after: Option<String>,
        limit: Option<u32>,
    ) -> (r: Vec<(String, CyberlinkState)>)
        requires
            self.wf(),
        ensures
            r@ == live_named_spec(
                *self,
                take_at_most(
                    self.names@.filter(name_after(crate::msg::opt_view(start_after))),
                    spec_limit(limit),
                ),
            ),
    {
        let limit_v: usize = effective_limit(limit);
        let ghost fsel = name_after(crate::msg::opt_view(start_after));
        let mut out: Vec<(String, CyberlinkState)> = Vec::new();
        let mut count: usize = 0;
        let n: usize = self.names.len();
        let mut i: usize = 0;
        proof {
            reveal(Seq::filter);
            assert(self.names@.take(0) =~= Seq::<(String, u64)>::empty());
            assert(self.names@.take(0).filter(fsel) =~= Seq::<(String, u64)>::empty());
        }
        while i < n && count < limit_v
            invariant
                0 <= i <= n,
                n == self.names@.len(),
                self.wf(),
                fsel == name_after(crate::msg::opt_view(start_after)),
                count == self.names@.take(i as int).filter(fsel).len(),
                count <= limit_v,
                out@ == live_named_spec(*self, self.names@.take(i as int).filter(fsel)),
            decreases n - i,
        {
            let entry_gid = self.names[i].1;
            let accepted = match &start_after {
                Option::Some(a) => crate::text::str_lex_lt(a.as_str(), self.names[i].0.as_str()),
                Option::None => true,
            };
            if accepted {
                count = count + 1;
                if !del_contains(&self.deleted, entry_gid) {
                    match find_link(&self.links, entry_gid) {
                        Option::Some(j) => {
                            let st = self.links[j].1.clone();
                            out.push((self.names[i].0.clone(), st));
                        },
                        Option::None => {},
                    }
                }
            }
            proof {
                let x = self.names@[i as int];
                assert(x == (x.0, x.1));
                assert(accepted == fsel(x));
                assert(self.names@.take(i + 1) =~= self.names@.take(i as int).push(x));
                self.names@.take(i as int).lemma_filter_push(x, fsel);
                if accepted {
                    assert(self.names@.take(i + 1).filter(fsel).drop_last() =~= self.names@.take(
                        i as int,
                    ).filter(fsel));
                }
            }
            i = i + 1;
        }
        proof {
            let full = self.names@.filter(fsel);
            if i == n {
                assert(self.names@.take(n as int) =~= self.names@);
                assert(count == full.len());
                if limit_v <= full.len() {
                    assert(full.take(limit_v as int) =~= full);
                }
                assert(take_at_most(full, limit_v as nat) == full);
            } else {
                assert(count == limit_v);
                assert(self.names@ =~= self.names@.take(i as int) + self.names@.skip(i as int));
                Seq::filter_distributes_over_add(
                    self.names@.take(i as int),
                    self.names@.skip(i as int),
                    fsel,
                );
                let pre = self.names@.take(i as int).filter(fsel);
                assert(full == pre + self.names@.skip(i as int).filter(fsel));
                assert(full.take(limit_v as int) =~= pre);
            }
        }
        out
    }

    /// Aggregate counts for whichever of owner and type were given; a
    /// counter that never rose above zero reads as `None`.
    pub fn query_get_counts(&self, owner: Option<String>, type_: Option<String>) -> (r:
        CountsResponse)
        requires
            self.wf(),
        ensures
            r.owner_count == (match owner {
                Option::Some(o) => if self.live_owned(o@) == 0 {
                    Option::<u64>::None
                } else {
                    Option::Some(self.live_owned(o@) as u64)
                },
                Option::None => Option::<u64>::None,
            }),
            r.type_count == (match type_ {
                Option::Some(t) => if self.live_typed(t@) == 0 {
                    Option::<u64>::None
                } else {
                    Option::Some(self.live_typed(t@) as u64)
                },
                Option::None => Option::<u64>::None,
            }),
            r.owner_type_count == (if owner is Some && type_ is Some {
                if self.live_owned_typed(
                    crate::execute::some_view(owner),
                    crate::execute::some_view(type_),
                ) == 0 {
                    Option::<u64>::None
                } else {
                    Option::Some(
                        self.live_owned_typed(
                            crate::execute::some_view(owner),
                            crate::execute::some_view(type_),
                        ) as u64,
                    )
                }
            } else {
                Option::<u64>::None
            }),
    {
        let mut owner_count: Option<u64> = Option::None;
        let mut type_count: Option<u64> = Option::None;
        let mut owner_type_count: Option<u64> = Option::None;
        match &owner {
            Option::Some(o) => {
                owner_count = assoc_lookup(&self.owner_counts, o.as_str());
                proof {
                    assert(map_val(self.owner_counts@, o@) == self.live_owned(o@));
                }
            },
            Option::None => {},
        }
        match &type_ {
            Option::Some(t) => {
                type_count = assoc_lookup(&self.type_counts, t.as_str());
                proof {
                    assert(map_val(self.type_counts@, t@) == self.live_typed(t@));
                }
            },
            Option::None => {},
        }
        match (&owner, &type_) {
            (Option::Some(o), Option::Some(t)) => {
                let fo = crate::state::assoc2_find(&self.owner_type_counts, o.as_str(), t.as_str());
                match fo {
                    Option::Some(j) => {
                        proof {
                            crate::model::lemma_key2_idx_is(self.owner_type_counts@, j as int);
                        }
                        owner_type_count = Option::Some(self.owner_type_counts[j].2);
                    },
                    Option::None => {
                        proof {
                            if crate::model::key2_has(self.owner_type_counts@, o@, t@) {
                                let w = crate::model::key2_idx(self.owner_type_counts@, o@, t@);
                                assert(self.owner_type_counts@[w].0@ == o@
                                    && self.owner_type_counts@[w].1@ == t@);
                            }
                        }
                    },
                }
                proof {
                    assert(map2_val(self.owner_type_counts@, o@, t@) == self.live_owned_typed(
                        o@,
                        t@,
                    ));
                }
            },
            _ => {},
        }
        CountsResponse { owner_count, type_count, owner_type_count }
    }
}

// ---------------------------------------------------------------------------
// Time-window scans.  The two time indices order records by a composite
// `(time, id)` key: creation time for one, latest-touch time for the other.
// ---------------------------------------------------------------------------

/// Which composite ordering a time scan walks.
pub enum OrderKey {
    Created,
    Updated,
    Id,
}

/// The numeric component of the composite key.
pub open spec fn order_key(k: OrderKey) -> spec_fn((u64, CyberlinkState)) -> u64 {
    match k {
        OrderKey::Created => |x: (u64, CyberlinkState)| x.1.created_at,
        OrderKey::Updated => |x: (u64, CyberlinkState)|
            match x.1.updated_at {
                Option::Some(u) => u,
                Option::None => x.1.created_at,
            },
        OrderKey::Id => |x: (u64, CyberlinkState)| x.0,
    }
}

/// `(k(a), a.id) <= (k(b), b.id)` lexicographically.
pub open spec fn key_le(
    k: spec_fn((u64, CyberlinkState)) -> u64,
    a: (u64, CyberlinkState),
    b: (u64, CyberlinkState),
) -> bool {
    k(a) < k(b) || (k(a) == k(b) && a.0 <= b.0)
}

/// Inserts `x` behind every element whose key is at most `x`'s.
pub open spec fn key_insert(
    k: spec_fn((u64, CyberlinkState)) -> u64,
    s: Seq<(u64, CyberlinkState)>,
    x: (u64, CyberlinkState),
) -> Seq<(u64, CyberlinkState)>
    decreases s.len(),
{
    if s.len() == 0 {
        seq![x]
    } else if key_le(k, s.last(), x) {
        s.push(x)
    } else {
        key_insert(k, s.drop_last(), x).push(s.last())
    }
}

/// Sorts by the composite `(key, id)` order, by repeated insertion.
pub open spec fn key_sort(
    k: spec_fn((u64, CyberlinkState)) -> u64,
    s: Seq<(u64, CyberlinkState)>,
) -> Seq<(u64, CyberlinkState)>
    decreases s.len(),
{
    if s.len() == 0 {
        Seq::<(u64, CyberlinkState)>::empty()
    } else {
        key_insert(k, key_sort(k, s.drop_last()), s.last())
    }
}

/// Every pair of positions respects the composite `(key, id)` order.
pub open spec fn sorted_by_key(
    k: spec_fn((u64, CyberlinkState)) -> u64,
    s: Seq<(u64, CyberlinkState)>,
) -> bool {
    forall|i: int, j: int| 0 <= i < j < s.len() ==> key_le(k, s[i], s[j])
}

/// Insertion only rearranges: every record of the result is the inserted
/// one or one of the old ones.
pub proof fn lemma_key_insert_elems(
    k: spec_fn((u64, CyberlinkState)) -> u64,
    s: Seq<(u64, CyberlinkState)>,
    x: (u64, CyberlinkState),
)
    ensures
        forall|i: int|
            0 <= i < key_insert(k, s, x).len() ==> key_insert(k, s, x)[i] == x || s.contains(
                #[trigger] key_insert(k, s, x)[i],
            ),
    decreases s.len(),
{
    if s.len() == 0 {
    } else if key_le(k, s.last(), x) {
        assert forall|i: int| 0 <= i < key_insert(k, s, x).len() implies key_insert(k, s, x)[i]
            == x || s.contains(#[trigger] key_insert(k, s, x)[i]) by {
            if i < s.len() {
                assert(key_insert(k, s, x)[i] == s[i]);
            }
        }
    } else {
        lemma_key_insert_elems(k, s.drop_last(), x);
        let t = key_insert(k, s.drop_last(), x);
        assert forall|i: int| 0 <= i < key_insert(k, s, x).len() implies key_insert(k, s, x)[i]
            == x || s.contains(#[trigger] key_insert(k, s, x)[i]) by {
            if i < t.len() {
                assert(key_insert(k, s, x)[i] == t[i]);
                if t[i] != x {
                    let j = choose|j: int| 0 <= j < s.drop_last().len() && s.drop_last()[j]
                        == t[i];
                    assert(s[j] == t[i]);
                }
            } else {
                assert(key_insert(k, s, x)[i] == s.last());
                assert(s[s.len() - 1] == s.last());
            }
        }
    }
}

/// Inserting into a sorted sequence keeps it sorted.
pub proof fn lemma_key_insert_sorted(
    k: spec_fn((u64, CyberlinkState)) -> u64,
    s: Seq<(u64, CyberlinkState)>,
    x: (u64, CyberlinkState),
)
    requires
        sorted_by_key(k, s),
    ensures
        sorted_by_key(k, key_insert(k, s, x)),
    decreases s.len(),
{
    if s.len() == 0 {
    } else if key_le(k, s.last(), x) {
        let r = s.push(x);
        assert forall|i: int, j: int| 0 <= i < j < r.len() implies key_le(k, r[i], r[j]) by {
            if j == r.len() - 1 {
                assert(r[j] == x);
                if i < s.len() - 1 {
                    assert(key_le(k, s[i], s.last()));
                }
            }
        }
    } else {
        lemma_key_insert_sorted(k, s.drop_last(), x);
        lemma_key_insert_elems(k, s.drop_last(), x);
        let t = key_insert(k, s.drop_last(), x);
        let r = t.push(s.last());
        assert forall|i: int, j: int| 0 <= i < j < r.len() implies key_le(k, r[i], r[j]) by {
            if j == r.len() - 1 {
                assert(r[j] == s.last());
                assert(r[i] == t[i]);
                if t[i] == x {
                } else {
                    let w = choose|w: int| 0 <= w < s.drop_last().len() && s.drop_last()[w]
                        == t[i];
                    assert(s[w] == t[i]);
                    assert(key_le(k, s[w], s.last()));
                }
            }
        }
    }
}

/// What a time scan returns is ordered by the composite `(key, id)` order.
pub proof fn lemma_key_sort_sorted(
    k: spec_fn((u64, CyberlinkState)) -> u64,
    s: Seq<(u64, CyberlinkState)>,
)
    ensures
        sorted_by_key(k, key_sort(k, s)),
    decreases s.len(),
{
    if s.len() > 0 {
        lemma_key_sort_sorted(k, s.drop_last());
        lemma_key_insert_sorted(k, key_sort(k, s.drop_last()), s.last());
    }
}

/// The records of `o` whose composite key lies strictly above
/// `(start, start_after)` and whose time component is at most `endv`.
pub open spec fn window_pred(
    o: Seq<char>,
    k: spec_fn((u64, CyberlinkState)) -> u64,
    start: u64,
    start_after: u64,
    endv: u64,
) -> spec_fn((u64, CyberlinkState)) -> bool {
    |x: (u64, CyberlinkState)|
        x.1.owner@ == o && (k(x) > start || (k(x) == start && x.0 > start_after)) && k(x) <= endv
}

/// The exclusive id cursor a time scan starts from, zero when absent.
pub open spec fn cursor_or_zero(start_after: Option<u64>) -> u64 {
    match start_after {
        Option::Some(a) => a,
        Option::None => 0,
    }
}

/// The inclusive end of a window, the present moment when absent.
pub open spec fn end_or_now(end_time: Option<u64>, now: u64) -> u64 {
    match end_time {
        Option::Some(e) => e,
        Option::None => now,
    }
}

/// Reads the composite key's numeric component.
fn order_key_exec(k: &OrderKey, x: &(u64, CyberlinkState)) -> (r: u64)
    ensures
        r == order_key(*k)(*x),
{
    match k {
        OrderKey::Created => x.1.created_at,
        OrderKey::Updated => match x.1.updated_at {
            Option::Some(u) => u,
            Option::None => x.1.created_at,
        },
        OrderKey::Id => x.0,
    }
}

/// Decides the composite order.
fn key_le_exec(k: &OrderKey, a: &(u64, CyberlinkState), b: &(u64, CyberlinkState)) -> (r: bool)
    ensures
        r == key_le(order_key(*k), *a, *b),
{
    let ka = order_key_exec(k, a);
    let kb = order_key_exec(k, b);
    ka < kb || (ka == kb && a.0 <= b.0)
}

/// `key_insert` lands at the position scanned out by walking back over the
/// elements whose key lies above `x`'s.
proof fn lemma_key_insert_at(
    k: spec_fn((u64, CyberlinkState)) -> u64,
    s: Seq<(u64, CyberlinkState)>,
    x: (u64, CyberlinkState),
    p: int,
)
    requires
        0 <= p <= s.len(),
        forall|i: int| p <= i < s.len() ==> !key_le(k, s[i], x),
        p > 0 ==> key_le(k, s[p - 1], x),
    ensures
        key_insert(k, s, x) == s.insert(p, x),
    decreases s.len(),
{
    if s.len() == 0 {
        assert(key_insert(k, s, x) =~= s.insert(0, x));
    } else if key_le(k, s.last(), x) {
        assert(p == s.len());
        assert(s.push(x) =~= s.insert(p, x));
    } else {
        assert(p < s.len());
        assert(forall|i: int| p <= i < s.drop_last().len() ==> !key_le(k, s.drop_last()[i], x));
        lemma_key_insert_at(k, s.drop_last(), x, p);
        assert(s.drop_last().insert(p, x).push(s.last()) =~= s.insert(p, x));
    }
}

/// Inserts one record into a vector at its composite-order position.
fn sorted_insert(k: &OrderKey, out: &mut Vec<(u64, CyberlinkState)>, x: (u64, CyberlinkState))
    ensures
        final(out)@ == key_insert(order_key(*k), old(out)@, x),
{
    let mut p: usize = out.len();
    while p > 0 && !key_le_exec(k, &out[p - 1], &x)
        invariant
            0 <= p <= out@.len(),
            out@ == old(out)@,
            forall|i: int| p <= i < out@.len() ==> !key_le(order_key(*k), out@[i], x),
        decreases p,
    {
        p = p - 1;
    }
    proof {
        lemma_key_insert_at(order_key(*k), out@, x, p as int);
    }
    out.insert(p, x);
}

/// Collects one page of a time-window scan: the records of `o` in the
/// window, ordered by the composite `(time, id)` key, capped at `limit`.
pub(crate) fn scan_time_window(
    links: &Vec<(u64, CyberlinkState)>,
    owner: &String,
    k: &OrderKey,
    start: u64,
    start_after: u64,
    endv: u64,
    limit: usize,
) -> (r: Vec<(u64, CyberlinkState)>)
    ensures
        r@ == take_at_most(
            key_sort(
                order_key(*k),
                links@.filter(window_pred(owner@, order_key(*k), start, start_after, endv)),
            ),
            limit as nat,
        ),
{
    let ghost wsel = window_pred(owner@, order_key(*k), start, start_after, endv);
    let mut flt: Vec<(u64, CyberlinkState)> = Vec::new();
    let n: usize = links.len();
    let mut i: usize = 0;
    proof {
        reveal(Seq::filter);
        assert(links@.take(0) =~= Seq::<(u64, CyberlinkState)>::empty());
        assert(links@.take(0).filter(wsel) =~= Seq::<(u64, CyberlinkState)>::empty());
    }
    while i < n
        invariant
            0 <= i <= n,
            n == links@.len(),
            wsel == window_pred(owner@, order_key(*k), start, start_after, endv),
            flt@ == links@.take(i as int).filter(wsel),
        decreases n - i,
    {
        let kv = order_key_exec(k, &links[i]);
        let keep = crate::text::str_eq(links[i].1.owner.as_str(), owner.as_str()) && (kv > start
            || (kv == start && links[i].0 > start_after)) && kv <= endv;
        if keep {
            let st = links[i].1.clone();
            flt.push((links[i].0, st));
        }
        proof {
            let x = links@[i as int];
            assert(x == (x.0, x.1));
            assert(keep == wsel(x));
            assert(links@.take(i + 1) =~= links@.take(i as int).push(x));
            links@.take(i as int).lemma_filter_push(x, wsel);
        }
        i = i + 1;
    }
    proof {
        assert(links@.take(n as int) =~= links@);
    }
    let mut out: Vec<(u64, CyberlinkState)> = Vec::new();
    let m: usize = flt.len();
    let mut j: usize = 0;
    proof {
        assert(flt@.take(0) =~= Seq::<(u64, CyberlinkState)>::empty());
        assert(out@ == key_sort(order_key(*k), flt@.take(0)));
    }
    while j < m
        invariant
            0 <= j <= m,
            m == flt@.len(),
            out@ == key_sort(order_key(*k), flt@.take(j as int)),
        decreases m - j,
    {
        let st = flt[j].1.clone();
        sorted_insert(k, &mut out, (flt[j].0, st));
        proof {
            let x = flt@[j as int];
            assert(x == (x.0, x.1));
            assert(flt@.take(j + 1).drop_last() =~= flt@.take(j as int));
            assert(flt@.take(j + 1).last() == x);
        }
        j = j + 1;
    }
    proof {
        assert(flt@.take(m as int) =~= flt@);
    }
    out.truncate(limit);
    out
}

/// Some member of the page already carries this numeric id.
pub open spec fn gid_in(s: Seq<(u64, CyberlinkState)>, g: u64) -> bool {
    exists|i: int| 0 <= i < s.len() && s[i].0 == g
}

/// Appends the members of `extra` whose id the growing page does not hold
/// yet, in order.
pub open spec fn merge_dedup(
    base: Seq<(u64, CyberlinkState)>,
    extra: Seq<(u64, CyberlinkState)>,
) -> Seq<(u64, CyberlinkState)>
    decreases extra.len(),
{
    if extra.len() == 0 {
        base
    } else {
        let b2 = if gid_in(base, extra[0].0) {
            base
        } else {
            base.push(extra[0])
        };
        merge_dedup(b2, extra.drop_first())
    }
}

/// Reports whether the page already holds the id.
fn gid_in_exec(s: &Vec<(u64, CyberlinkState)>, g: u64) -> (r: bool)
    ensures
        r == gid_in(s@, g),
{
    let n: usize = s.len();
    let mut i: usize = 0;
    while i < n
        invariant
            0 <= i <= n,
            n == s@.len(),
            forall|j: int| 0 <= j < i ==> s@[j].0 != g,
        decreases n - i,
    {
        if s[i].0 == g {
            return true;
        }
        i = i + 1;
    }
    proof {
        if gid_in(s@, g) {
            let w = choose|w: int| 0 <= w < s@.len() && s@[w].0 == g;
            assert(s@[w].0 == g);
        }
    }
    false
}

/// Folds `extra` into `base`, skipping ids already present.
fn merge_dedup_exec(base: &mut Vec<(u64, CyberlinkState)>, extra: Vec<(u64, CyberlinkState)>)
    ensures
        final(base)@ == merge_dedup(old(base)@, extra@),
{
    let mut rest = extra;
    let ghost extra0 = rest@;
    while rest.len() > 0
        invariant
            merge_dedup(old(base)@, extra0) == merge_dedup(base@, rest@),
        decreases rest@.len(),
    {
        let ghost prev_base = base@;
        let ghost prev_rest = rest@;
        let x = rest.remove(0);
        if !gid_in_exec(base, x.0) {
            base.push(x);
        }
        proof {
            assert(prev_rest[0] == x);
            assert(prev_rest.drop_first() =~= rest@);
        }
    }
    proof {
        assert(rest@.len() == 0);
    }
}

/// The page a combined created-or-updated time scan returns: both composite
/// indices are scanned and paged independently, the pages are unioned by id
/// keeping the creation page's order first, and the union is re-sorted by
/// id and capped.
pub open spec fn time_any_spec(
    s: GraphStore,
    o: Seq<char>,
    start: u64,
    start_after: u64,
    endv: u64,
    limit: nat,
) -> Seq<(u64, CyberlinkState)> {
    let ck = order_key(OrderKey::Created);
    let uk = order_key(OrderKey::Updated);
    let page_c = take_at_most(
        key_sort(ck, s.links@.filter(window_pred(o, ck, start, start_after, endv))),
        limit,
    );
    let page_u = take_at_most(
        key_sort(uk, s.links@.filter(window_pred(o, uk, start, start_after, endv))),
        limit,
    );
    take_at_most(key_sort(order_key(OrderKey::Id), merge_dedup(page_c, page_u)), limit)
}

impl GraphStore {
    /// Links of `owner` created in the window `(start_time, end_time]`,
    /// with the composite cursor `(start_time, start_after)` exclusive and
    /// `end_time` defaulting to the present moment; ordered by creation
    /// time, then id.
    pub fn query_cyberlinks_by_owner_time(
        &self,
        owner: String,
        start_time: u64,
        end_time: Option<u64>,
        now: u64,
        start_after: Option<u64>,
        limit: Option<u32>,
    ) -> (r: Vec<(u64, CyberlinkState)>)
        ensures
            r@ == take_at_most(
                key_sort(
                    order_key(OrderKey::Created),
                    self.links@.filter(
                        window_pred(
                            owner@,
                            order_key(OrderKey::Created),
                            start_time,
                            cursor_or_zero(start_after),
                            end_or_now(end_time, now),
                        ),
                    ),
                ),
                spec_limit(limit),
            ),
    {
        let sa: u64 = match start_after {
            Option::Some(a) => a,
            Option::None => 0,
        };
        let endv: u64 = match end_time {
            Option::Some(e) => e,
            Option::None => now,
        };
        scan_time_window(
            &self.links,
            &owner,
            &OrderKey::Created,
            start_time,
            sa,
            endv,
            effective_limit(limit),
        )
    }

    /// Links of `owner` created *or last updated* in the window.  Each of
    /// the two composite indices is scanned and paged on its own before the
    /// union, so a window that straddles a page boundary can under-return
    /// relative to an unbounded scan; the result is ordered by id.
    pub fn query_cyberlinks_by_owner_time_any(
        &self,
        owner: String,
        start_time: u64,
        end_time: Option<u64>,
        now: u64,
        start_after: Option<u64>,
        limit: Option<u32>,
    ) -> (r: Vec<(u64, CyberlinkState)>)
        ensures
            r@ == time_any_spec(
                *self,
                owner@,
                start_time,
                cursor_or_zero(start_after),
                end_or_now(end_time, now),
                spec_limit(limit),
            ),
    {
        let sa: u64 = match start_after {
            Option::Some(a) => a,
            Option::None => 0,
        };
        let endv: u64 = match end_time {
            Option::Some(e) => e,
            Option::None => now,
        };
        let limit_v = effective_limit(limit);
        let mut page_c = scan_time_window(
            &self.links,
            &owner,
            &OrderKey::Created,
            start_time,
            sa,
            endv,
            limit_v,
        );
        let page_u = scan_time_window(
            &self.links,
            &owner,
            &OrderKey::Updated,
            start_time,
            sa,
            endv,
            limit_v,
        );
        merge_dedup_exec(&mut page_c, page_u);
        let merged = page_c;
        let mut out: Vec<(u64, CyberlinkState)> = Vec::new();
        let m: usize = merged.len();
        let mut j: usize = 0;
        proof {
            assert(merged@.take(0) =~= Seq::<(u64, CyberlinkState)>::empty());
            assert(out@ == key_sort(order_key(OrderKey::Id), merged@.take(0)));
        }
        while j < m
            invariant
                0 <= j <= m,
                m == merged@.len(),
                out@ == key_sort(order_key(OrderKey::Id), merged@.take(j as int)),
            decreases m - j,
        {
            let st = merged[j].1.clone();
            sorted_insert(&OrderKey::Id, &mut out, (merged[j].0, st));
            proof {
                let x = merged@[j as int];
                assert(x == (x.0, x.1));
                assert(merged@.take(j + 1).drop_last() =~= merged@.take(j as int));
                assert(merged@.take(j + 1).last() == x);
            }
            j = j + 1;
        }
        proof {
            assert(merged@.take(m as int) =~= merged@);
        }
        out.truncate(limit_v);
        out
    }
}

/// What a read-only request answers with.
pub enum QueryAnswer {
    Stats(CountsResponse),
    Config(ConfigResponse),
    State(StateResponse),
    LastGID(u64),
    Link(CyberlinkState),
    Links(Vec<(u64, CyberlinkState)>),
    NamedLinks(Vec<(String, CyberlinkState)>),
}

impl GraphStore {
    /// Answers one read-only request by forwarding it to the query of the
    /// same name; the queries' own contracts state the error cases in
    /// detail.
    pub fn query(&self, now: u64, msg: crate::msg::QueryMsg) -> (r: Result<
        QueryAnswer,
        ContractError,
    >)
        requires
            self.wf(),
        ensures
            match msg {
                crate::msg::QueryMsg::LastGID {  } => r matches Result::Ok(
                    QueryAnswer::LastGID(g),
                ) && g == self.last_gid,
                crate::msg::QueryMsg::Config {  } => r matches Result::Ok(QueryAnswer::Config(c))
                    && c.admins@ == self.config.admins@ && c.executors@ == self.config.executors@,
                crate::msg::QueryMsg::DebugState {  } => r matches Result::Ok(
                    QueryAnswer::State(s),
                ) && s.cyberlinks@ == self.links@ && s.named_cyberlinks@ == self.names@,
                crate::msg::QueryMsg::GetGraphStats { owner, type_ } => r
                    matches Result::Ok(QueryAnswer::Stats(c)) && c.owner_count == (match owner {
                    Option::Some(o) => if self.live_owned(o@) == 0 {
                        Option::<u64>::None
                    } else {
                        Option::Some(self.live_owned(o@) as u64)
                    },
                    Option::None => Option::<u64>::None,
                }) && c.type_count == (match type_ {
                    Option::Some(tt) => if self.live_typed(tt@) == 0 {
                        Option::<u64>::None
                    } else {
                        Option::Some(self.live_typed(tt@) as u64)
                    },
                    Option::None => Option::<u64>::None,
                }) && c.owner_type_count == (if owner is Some && type_ is Some {
                    if self.live_owned_typed(
                        crate::execute::some_view(owner),
                        crate::execute::some_view(type_),
                    ) == 0 {
                        Option::<u64>::None
                    } else {
                        Option::Some(
                            self.live_owned_typed(
                                crate::execute::some_view(owner),
                                crate::execute::some_view(type_),
                            ) as u64,
                        )
                    }
                } else {
                    Option::<u64>::None
                }),
                crate::msg::QueryMsg::CyberlinkByGID { gid } => if !self.is_deleted(gid)
                    && self.is_live(gid) {
                    r matches Result::Ok(QueryAnswer::Link(st)) && st == self.live_link(gid)
                } else {
                    r is Err
                },
                crate::msg::QueryMsg::CyberlinkByFID { fid } => if self.name_live(fid@)
                    && !self.is_deleted(key_val(self.names@, fid@)) {
                    r matches Result::Ok(QueryAnswer::Link(st)) && st == self.named_link(fid@)
                } else {
                    r is Err
                },
                crate::msg::QueryMsg::CyberlinksByGIDs { start_after_gid, limit } => r
                    matches Result::Ok(QueryAnswer::Links(v)) && v@ == page_by(
                    self.links@,
                    filter_pred(LinkFilter::All),
                    start_after_gid,
                    spec_limit(limit),
                ),
                crate::msg::QueryMsg::CyberlinksSetByGIDs { gids } => r matches Result::Ok(
                    QueryAnswer::Links(v),
                ) && v@ == set_by_gids_spec(*self, gids@),
                crate::msg::QueryMsg::CyberlinksByFIDs { start_after_fid, limit } => r
                    matches Result::Ok(QueryAnswer::NamedLinks(v)) && v@ == live_named_spec(
                    *self,
                    take_at_most(
                        self.names@.filter(name_after(crate::msg::opt_view(start_after_fid))),
                        spec_limit(limit),
                    ),
                ),
                crate::msg::QueryMsg::CyberlinksSetByFIDs { fids } => r matches Result::Ok(
                    QueryAnswer::NamedLinks(v),
                ) && v@ == set_by_fids_spec(*self, fids@),
                crate::msg::QueryMsg::CyberlinksByType { type_, start_after_gid, limit } => r
                    matches Result::Ok(QueryAnswer::Links(v)) && v@ == page_by(
                    self.links@,
                    type_pred(type_@),
                    start_after_gid,
                    spec_limit(limit),
                ),
                crate::msg::QueryMsg::CyberlinksByFrom { from, start_after_gid, limit } => r
                    matches Result::Ok(QueryAnswer::Links(v)) && v@ == page_by(
                    self.links@,
                    from_pred(from@),
                    start_after_gid,
                    spec_limit(limit),
                ),
                crate::msg::QueryMsg::CyberlinksByTo { to, start_after_gid, limit } => r
                    matches Result::Ok(QueryAnswer::Links(v)) && v@ == page_by(
                    self.links@,
                    to_pred(to@),
                    start_after_gid,
                    spec_limit(limit),
                ),
                crate::msg::QueryMsg::CyberlinksByOwner { owner, start_after_gid, limit } => r
                    matches Result::Ok(QueryAnswer::Links(v)) && v@ == page_by(
                    self.links@,
                    owner_pred(owner@),
                    start_after_gid,
                    spec_limit(limit),
                ),
                crate::msg::QueryMsg::CyberlinksByOwnerTime {
                    owner,
                    start_time,
                    end_time,
                    start_after_gid,
                    limit,
                } => r matches Result::Ok(QueryAnswer::Links(v)) && v@ == take_at_most(
                    key_sort(
                        order_key(OrderKey::Created),
                        self.links@.filter(
                            window_pred(
                                owner@,
                                order_key(OrderKey::Created),
                                start_time,
                                cursor_or_zero(start_after_gid),
                                end_or_now(end_time, now),
                            ),
                        ),
                    ),
                    spec_limit(limit),
                ),
                crate::msg::QueryMsg::CyberlinksByOwnerTimeAny {
                    owner,
                    start_time,
                    end_time,
                    start_after_gid,
                    limit,
                } => r matches Result::Ok(QueryAnswer::Links(v)) && v@ == time_any_spec(
                    *self,
                    owner@,
                    start_time,
                    cursor_or_zero(start_after_gid),
                    end_or_now(end_time, now),
                    spec_limit(limit),
                ),
                crate::msg::QueryMsg::CyberlinksByOwnerAndType {
                    owner,
                    type_,
                    start_after_gid,
                    limit,
                } => r matches Result::Ok(QueryAnswer::Links(v)) && v@ == page_by(
                    self.links@,
                    owner_type_pred(owner@, type_@),
                    start_after_gid,
                    spec_limit(limit),
                ),
            },
    {
        match msg {
            crate::msg::QueryMsg::GetGraphStats { owner, type_ } => Result::Ok(
                QueryAnswer::Stats(self.query_get_counts(owner, type_)),
            ),
            crate::msg::QueryMsg::Config {  } => Result::Ok(
                QueryAnswer::Config(self.query_config()),
            ),
            crate::msg::QueryMsg::DebugState {  } => Result::Ok(
                QueryAnswer::State(self.query_state()),
            ),
            crate::msg::QueryMsg::LastGID {  } => Result::Ok(
                QueryAnswer::LastGID(self.query_last_gid()),
            ),
            crate::msg::QueryMsg::CyberlinkByGID { gid } => {
                match self.query_cyberlink_by_gid(gid) {
                    Result::Ok(st) => Result::Ok(QueryAnswer::Link(st)),
                    Result::Err(e) => Result::Err(e),
                }
            },
            crate::msg::QueryMsg::CyberlinksByGIDs { start_after_gid, limit } => Result::Ok(
                QueryAnswer::Links(self.query_cyberlinks_by_gids(start_after_gid, limit)),
            ),
            crate::msg::QueryMsg::CyberlinksSetByGIDs { gids } => Result::Ok(
                QueryAnswer::Links(self.query_cyberlinks_set_by_gids(gids)),
            ),
            crate::msg::QueryMsg::CyberlinkByFID { fid } => {
                match self.query_cyberlink_by_formatted_id(fid) {
                    Result::Ok(st) => Result::Ok(QueryAnswer::Link(st)),
                    Result::Err(e) => Result::Err(e),
                }
            },
            crate::msg::QueryMsg::CyberlinksByFIDs { start_after_fid, limit } => Result::Ok(
                QueryAnswer::NamedLinks(self.query_cyberlinks_by_ids(start_after_fid, limit)),
            ),
            crate::msg::QueryMsg::CyberlinksSetByFIDs { fids } => Result::Ok(
                QueryAnswer::NamedLinks(self.query_cyberlinks_set_by_ids(fids)),
            ),
            crate::msg::QueryMsg::CyberlinksByType { type_, start_after_gid, limit } => Result::Ok(
                QueryAnswer::Links(self.query_cyberlinks_by_type(type_, start_after_gid, limit)),
            ),
            crate::msg::QueryMsg::CyberlinksByFrom { from, start_after_gid, limit } => Result::Ok(
                QueryAnswer::Links(self.query_cyberlinks_by_from(from, start_after_gid, limit)),
            ),
            crate::msg::QueryMsg::CyberlinksByTo { to, start_after_gid, limit } => Result::Ok(
                QueryAnswer::Links(self.query_cyberlinks_by_to(to, start_after_gid, limit)),
            ),
            crate::msg::QueryMsg::CyberlinksByOwner { owner, start_after_gid, limit } => Result::Ok(
                QueryAnswer::Links(self.query_cyberlinks_by_owner(owner, start_after_gid, limit)),
            ),
            crate::msg::QueryMsg::CyberlinksByOwnerTime {
                owner,
                start_time,
                end_time,
                start_after_gid,
                limit,
            } => Result::Ok(
                QueryAnswer::Links(
                    self.query_cyberlinks_by_owner_time(
                        owner,
                        start_time,
                        end_time,
                        now,
                        start_after_gid,
                        limit,
                    ),
                ),
            ),
            crate::msg::QueryMsg::CyberlinksByOwnerTimeAny {
                owner,
                start_time,
                end_time,
                start_after_gid,
                limit,
            } => Result::Ok(
                QueryAnswer::Links(
                    self.query_cyberlinks_by_owner_time_any(
                        owner,
                        start_time,
                        end_time,
                        now,
                        start_after_gid,
                        limit,
                    ),
                ),
            ),
            crate::msg::QueryMsg::CyberlinksByOwnerAndType {
                owner,
                type_,
                start_after_gid,
                limit,
            } => Result::Ok(
                QueryAnswer::Links(
                    self.query_cyberlinks_by_owner_and_type(owner, type_, start_after_gid, limit),
                ),
            ),
        }
    }
}

} // verus!
