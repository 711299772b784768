//! The mutating operations: validation, creation (named, auto-numbered,
//! batch and combined vertex-plus-edge), value updates, soft deletion and
//! capability-list changes.

use vstd::prelude::*;
use crate::error::ContractError;
use crate::model::{
    del_has, gid_idx, has_gid, key_has, key_idx, key_val, lemma_count_by_le_len,
    lemma_count_by_push, lemma_gid_idx_is, lemma_key_idx_is, lemma_links_len_bound,
    lemma_names_sorted_unique, map2_val, map_val,
};
use crate::msg::Cyberlink;
use crate::state::{
    assoc_lookup, del_contains, find_link, insert_name, map2_bump, map_bump, map_drop,
    owner_pred, owner_type_pred, type_pred, CyberlinkState, GraphStore,
};
use crate::text::{
    auto_fid, lemma_auto_fid_injective, lemma_named_ne_auto, make_auto_fid, no_colon,
};

verus! {

/// The fields a freshly created record carries.
pub open spec fn created_fields(
    st: CyberlinkState,
    c: Cyberlink,
    owner: Seq<char>,
    time: u64,
    fid: Seq<char>,
) -> bool {
    &&& st.fid matches Option::Some(f) && f@ == fid
    &&& st.type_@ == c.type_@
    &&& st.from@ == (match c.from {
        Option::Some(f) => f@,
        Option::None => "Any"@,
    })
    &&& st.to@ == (match c.to {
        Option::Some(t) => t@,
        Option::None => "Any"@,
    })
    &&& st.value@ == (match c.value {
        Option::Some(v) => v@,
        Option::None => Seq::<char>::empty(),
    })
    &&& st.owner@ == owner
    &&& st.created_at == time
    &&& st.updated_at is None
}

/// What one successful creation does to the store: the next id is handed
/// out, the record is appended, the fresh formatted id is mapped to it, and
/// nothing else moves.
pub open spec fn created_effect(
    pre: GraphStore,
    post: GraphStore,
    fid: Seq<char>,
    gid: u64,
    c: Cyberlink,
    owner: Seq<char>,
    time: u64,
) -> bool {
    &&& gid == pre.last_gid + 1
    &&& post.last_gid == gid
    &&& !key_has(pre.names@, fid)
    &&& key_has(post.names@, fid)
    &&& key_val(post.names@, fid) == gid
    &&& forall|k: Seq<char>|
        k != fid ==> #[trigger] key_has(post.names@, k) == key_has(pre.names@, k)
    &&& forall|k: Seq<char>|
        k != fid && key_has(pre.names@, k) ==> #[trigger] key_val(post.names@, k) == key_val(
            pre.names@,
            k,
        )
    &&& post.links@.len() == pre.links@.len() + 1
    &&& forall|i: int| 0 <= i < pre.links@.len() ==> #[trigger] post.links@[i] == pre.links@[i]
    &&& post.links@.last().0 == gid
    &&& created_fields(post.links@.last().1, c, owner, time, fid)
    &&& post.deleted@ == pre.deleted@
}

/// The view under a `Some`; meaningful only when the option is `Some`.
pub open spec fn some_view(o: Option<String>) -> Seq<char> {
    match o {
        Option::Some(s) => s@,
        Option::None => Seq::<char>::empty(),
    }
}

/// Returns the string, or the `"_"` placeholder the errors carry.
fn opt_or_underscore(o: &Option<String>) -> (r: String)
    ensures
        r@ == match *o {
            Option::Some(s) => s@,
            Option::None => "_"@,
        },
{
    match o {
        Option::Some(s) => s.clone(),
        Option::None => String::from_str("_"),
    }
}

/// What one batch item does at its turn: a candidate that validates
/// against the store as it then stands is created there, under the next id
/// and its type's next auto-generated formatted id; one that does not
/// leaves the store untouched and reports its validation error.
pub open spec fn batch_step(
    pre: GraphStore,
    c: Cyberlink,
    sender: Seq<char>,
    time: u64,
    post: GraphStore,
    res: Result<(u64, String), ContractError>,
) -> bool {
    if pre.validate_ok(c) {
        &&& res matches Result::Ok(out) && out.0 == pre.last_gid + 1 && out.1@ == auto_fid(
            c.type_@,
            (map_val(pre.type_seqs@, c.type_@) + 1) as nat,
        ) && created_effect(pre, post, out.1@, out.0, c, sender, time)
        &&& map_val(post.type_seqs@, c.type_@) == map_val(pre.type_seqs@, c.type_@) + 1
        &&& forall|t: Seq<char>|
            t != c.type_@ ==> #[trigger] map_val(post.type_seqs@, t) == map_val(
                pre.type_seqs@,
                t,
            )
    } else {
        &&& res matches Result::Err(e) && pre.validate_err_matches(c, e)
        &&& pre.same_state(post)
    }
}

/// A whole batch, item by item: `steps` walks the stores the batch passes
/// through, and each item relates its step's pre- and post-store and its
/// reported outcome by `batch_step`.
pub open spec fn batch_trace(
    items: Seq<Cyberlink>,
    sender: Seq<char>,
    time: u64,
    steps: Seq<GraphStore>,
    results: Seq<Result<(u64, String), ContractError>>,
) -> bool {
    &&& steps.len() == items.len() + 1
    &&& results.len() == items.len()
    &&& forall|i: int|
        0 <= i < items.len() ==> #[trigger] batch_step(
            steps[i],
            items[i],
            sender,
            time,
            steps[i + 1],
            results[i],
        )
}

impl GraphStore {
    /// Exactly one endpoint of the pair was given.
    pub open spec fn pair_invalid(c: Cyberlink) -> bool {
        (c.from is Some && c.to is None) || (c.from is None && c.to is Some)
    }

    /// The declared type resolves to a live record.
    pub open spec fn type_resolves(self, c: Cyberlink) -> bool {
        self.name_live(c.type_@)
    }

    /// The `from` endpoint, when given, resolves to a live record.
    pub open spec fn from_resolves(self, c: Cyberlink) -> bool {
        match c.from {
            Option::Some(f) => self.name_live(f@),
            Option::None => true,
        }
    }

    /// The `to` endpoint, when given, resolves to a live record.
    pub open spec fn to_resolves(self, c: Cyberlink) -> bool {
        match c.to {
            Option::Some(t) => self.name_live(t@),
            Option::None => true,
        }
    }

    /// The declared type constrains `from` and the endpoint's type differs.
    pub open spec fn from_conflict(self, c: Cyberlink) -> bool {
        &&& c.from is Some
        &&& c.to is Some
        &&& self.named_link(c.type_@).from@ != "Any"@
        &&& self.named_link(c.type_@).from@ != self.named_link(some_view(c.from)).type_@
    }

    /// The declared type constrains `to` and the endpoint's type differs.
    pub open spec fn to_conflict(self, c: Cyberlink) -> bool {
        &&& c.from is Some
        &&& c.to is Some
        &&& self.named_link(c.type_@).to@ != "Any"@
        &&& self.named_link(c.type_@).to@ != self.named_link(some_view(c.to)).type_@
    }

    /// The candidate passes every validation rule.
    pub open spec fn validate_ok(self, c: Cyberlink) -> bool {
        &&& !Self::pair_invalid(c)
        &&& self.type_resolves(c)
        &&& self.from_resolves(c)
        &&& self.to_resolves(c)
        &&& !self.from_conflict(c)
        &&& !self.to_conflict(c)
    }

    /// The error a failed validation reports, by the first rule broken.
    pub open spec fn validate_err_matches(self, c: Cyberlink, e: ContractError) -> bool {
        if Self::pair_invalid(c) {
            e matches ContractError::InvalidCyberlink { from, to, type_ } && from@ == (match c.from {
                Option::Some(f) => f@,
                Option::None => "_"@,
            }) && to@ == (match c.to {
                Option::Some(t) => t@,
                Option::None => "_"@,
            }) && type_@ == c.type_@
        } else if !self.type_resolves(c) {
            e matches ContractError::TypeNotExists { type_ } && type_@ == c.type_@
        } else if !self.from_resolves(c) {
            e matches ContractError::FromNotExists { from } && from@ == some_view(c.from)
        } else if !self.to_resolves(c) {
            e matches ContractError::ToNotExists { to } && to@ == some_view(c.to)
        } else {
            e matches ContractError::TypeConflict {
                type_,
                from,
                to,
                expected_type,
                expected_from,
                expected_to,
                received_type,
                received_from,
                received_to,
            } && type_@ == c.type_@ && from@ == some_view(c.from) && to@ == some_view(c.to)
                && expected_type@ == c.type_@ && received_type@ == c.type_@ && expected_from@
                == self.named_link(c.type_@).from@ && expected_to@ == self.named_link(
                c.type_@,
            ).to@ && received_from@ == self.named_link(some_view(c.from)).type_@ && received_to@
                == self.named_link(some_view(c.to)).type_@
        }
    }

    /// The error a failed named creation reports, by the first check broken:
    /// capability, name shape, validation, then name freshness.
    pub open spec fn create_named_err_matches(
        self,
        sender: Seq<char>,
        name: Seq<char>,
        c: Cyberlink,
        e: ContractError,
    ) -> bool {
        if !self.config.spec_can_modify(sender) {
            e matches ContractError::Unauthorized {  }
        } else if !no_colon(name) {
            e matches ContractError::InvalidNameFormat { name: nn } && nn@ == name
        } else if !self.validate_ok(c) {
            self.validate_err_matches(c, e)
        } else {
            key_has(self.names@, name) && (e matches ContractError::NameTaken { name: nn } && nn@
                == name)
        }
    }

    /// The error a failed auto-numbered creation reports: capability first,
    /// then the validation verdict.
    pub open spec fn create_auto_err_matches(
        self,
        sender: Seq<char>,
        c: Cyberlink,
        e: ContractError,
    ) -> bool {
        if !self.config.spec_can_execute(sender) {
            e matches ContractError::Unauthorized {  }
        } else {
            !self.validate_ok(c) && self.validate_err_matches(c, e)
        }
    }

    /// The error when `sender` cannot update or delete the link under
    /// `fid`: unknown name, tombstoned record, or missing ownership.
    pub open spec fn touch_err_matches(
        self,
        sender: Seq<char>,
        fid: Seq<char>,
        e: ContractError,
    ) -> bool {
        if !key_has(self.names@, fid) {
            e matches ContractError::NotFound { fid: f } && f@ == fid
        } else if self.is_deleted(key_val(self.names@, fid)) {
            e matches ContractError::DeletedCyberlink { fid: f } && f@ == fid
        } else {
            !(self.live_link(key_val(self.names@, fid)).owner@ == sender
                || self.config.spec_is_admin(sender)) && e
                matches ContractError::Unauthorized {  }
        }
    }

    /// The error a failed combined vertex-and-edge creation reports, by the
    /// first check broken.
    pub open spec fn vertex_link_err_matches(
        self,
        sender: Seq<char>,
        node_type: Seq<char>,
        link_type: Seq<char>,
        link_from_existing_id: Option<String>,
        link_to_existing_id: Option<String>,
        e: ContractError,
    ) -> bool {
        let existing = some_view(
            if link_from_existing_id is Some {
                link_from_existing_id
            } else {
                link_to_existing_id
            },
        );
        if !self.config.spec_can_execute(sender) {
            e matches ContractError::Unauthorized {  }
        } else if (link_from_existing_id is Some) == (link_to_existing_id is Some) {
            e matches ContractError::InvalidLinkSpecification {  }
        } else if !self.name_live(node_type) {
            e matches ContractError::TypeNotExists { type_ } && type_@ == node_type
        } else if !self.name_live(link_type) {
            e matches ContractError::TypeNotExists { type_ } && type_@ == link_type
        } else if !key_has(self.names@, existing) {
            if link_from_existing_id is Some {
                e matches ContractError::FromNotExists { from } && from@ == existing
            } else {
                e matches ContractError::ToNotExists { to } && to@ == existing
            }
        } else if self.is_deleted(key_val(self.names@, existing)) {
            e matches ContractError::NotFound { fid } && fid@ == existing
        } else {
            compat_conflict(
                self.named_link(link_type),
                node_type,
                self.named_link(existing).type_@,
                link_to_existing_id is Some,
            ) && e matches ContractError::TypeConflict { .. }
        }
    }

    /// Checks a candidate link against the schema without touching state:
    /// the endpoint pair must be complete or absent, the declared type and
    /// both endpoints must resolve to live records, and a non-`"Any"`
    /// constraint of the type must equal the endpoint's own type.
    pub fn validate_cyberlink(&self, cyberlink: &Cyberlink) -> (r: Result<(), ContractError>)
        requires
            self.wf(),
        ensures
            r is Ok <==> self.validate_ok(*cyberlink),
            r matches Result::Err(e) ==> self.validate_err_matches(*cyberlink, e),
    {
        proof {
            lemma_names_sorted_unique(self.names@);
        }
        if cyberlink.from.is_some() != cyberlink.to.is_some() {
            return Result::Err(ContractError::InvalidCyberlink {
                from: opt_or_underscore(&cyberlink.from),
                to: opt_or_underscore(&cyberlink.to),
                type_: cyberlink.type_.clone(),
            });
        }
        let tgid = match assoc_lookup(&self.names, cyberlink.type_.as_str()) {
            Option::None => {
                return Result::Err(ContractError::TypeNotExists {
                    type_: cyberlink.type_.clone(),
                });
            },
            Option::Some(g) => g,
        };
        let ti = match find_link(&self.links, tgid) {
            Option::None => {
                return Result::Err(ContractError::TypeNotExists {
                    type_: cyberlink.type_.clone(),
                });
            },
            Option::Some(i) => i,
        };
        match (&cyberlink.from, &cyberlink.to) {
            (Option::Some(f), Option::Some(t)) => {
                let fgid = match assoc_lookup(&self.names, f.as_str()) {
                    Option::None => {
                        return Result::Err(ContractError::FromNotExists { from: f.clone() });
                    },
                    Option::Some(g) => g,
                };
                let fi = match find_link(&self.links, fgid) {
                    Option::None => {
                        return Result::Err(ContractError::FromNotExists { from: f.clone() });
                    },
                    Option::Some(i) => i,
                };
                let dgid = match assoc_lookup(&self.names, t.as_str()) {
                    Option::None => {
                        return Result::Err(ContractError::ToNotExists { to: t.clone() });
                    },
                    Option::Some(g) => g,
                };
                let di = match find_link(&self.links, dgid) {
                    Option::None => {
                        return Result::Err(ContractError::ToNotExists { to: t.clone() });
                    },
                    Option::Some(i) => i,
                };
                let from_ok = crate::text::str_eq(self.links[ti].1.from.as_str(), "Any")
                    || crate::text::str_eq(
                    self.links[ti].1.from.as_str(),
                    self.links[fi].1.type_.as_str(),
                );
                if !from_ok {
                    return Result::Err(ContractError::TypeConflict {
                        type_: cyberlink.type_.clone(),
                        from: f.clone(),
                        to: t.clone(),
                        expected_type: cyberlink.type_.clone(),
                        expected_from: self.links[ti].1.from.clone(),
                        expected_to: self.links[ti].1.to.clone(),
                        received_type: cyberlink.type_.clone(),
                        received_from: self.links[fi].1.type_.clone(),
                        received_to: self.links[di].1.type_.clone(),
                    });
                }
                let to_ok = crate::text::str_eq(self.links[ti].1.to.as_str(), "Any")
                    || crate::text::str_eq(
                    self.links[ti].1.to.as_str(),
                    self.links[di].1.type_.as_str(),
                );
                if !to_ok {
                    return Result::Err(ContractError::TypeConflict {
                        type_: cyberlink.type_.clone(),
                        from: f.clone(),
                        to: t.clone(),
                        expected_type: cyberlink.type_.clone(),
                        expected_from: self.links[ti].1.from.clone(),
                        expected_to: self.links[ti].1.to.clone(),
                        received_type: cyberlink.type_.clone(),
                        received_from: self.links[fi].1.type_.clone(),
                        received_to: self.links[di].1.type_.clone(),
                    });
                }
                Result::Ok(())
            },
            (Option::None, Option::None) => Result::Ok(()),
            _ => {
                proof {
                    assert(false);
                }
                Result::Ok(())
            },
        }
    }

    /// Allocates the next numeric id, writes the record, its permanent
    /// name-map entry and the three counter updates in one step.  Validation
    /// and capability checks are the callers' business; the only failure here
    /// is a caller-supplied name that is already mapped, which must never be
    /// reassigned.
    pub(crate) fn create_cyberlink(
        &mut self,
        name: Option<String>,
        cyberlink: Cyberlink,
        owner: &str,
        time: u64,
    ) -> (r: Result<(u64, String), ContractError>)
        requires
            old(self).wf(),
            old(self).last_gid < u64::MAX,
            name matches Option::Some(n) ==> no_colon(n@),
        ensures
            final(self).wf(),
            final(self).config == old(self).config,
            match r {
                Result::Ok(out) => {
                    &&& !(name matches Option::Some(n) && key_has(old(self).names@, n@))
                    &&& out.0 == old(self).last_gid + 1
                    &&& final(self).last_gid == out.0
                    &&& out.1@ == (match name {
                        Option::Some(n) => n@,
                        Option::None => auto_fid(
                            cyberlink.type_@,
                            (map_val(old(self).type_seqs@, cyberlink.type_@) + 1) as nat,
                        ),
                    })
                    &&& !key_has(old(self).names@, out.1@)
                    &&& key_has(final(self).names@, out.1@)
                    &&& key_val(final(self).names@, out.1@) == out.0
                    &&& forall|k: Seq<char>|
                        k != out.1@ ==> #[trigger] key_has(final(self).names@, k) == key_has(
                            old(self).names@,
                            k,
                        )
                    &&& forall|k: Seq<char>|
                        k != out.1@ && key_has(old(self).names@, k) ==> #[trigger] key_val(
                            final(self).names@,
                            k,
                        ) == key_val(old(self).names@, k)
                    &&& final(self).links@.len() == old(self).links@.len() + 1
                    &&& forall|i: int|
                        0 <= i < old(self).links@.len() ==> #[trigger] final(self).links@[i]
                            == old(self).links@[i]
                    &&& final(self).links@.last().0 == out.0
                    &&& created_fields(
                        final(self).links@.last().1,
                        cyberlink,
                        owner@,
                        time,
                        out.1@,
                    )
                    &&& final(self).deleted@ == old(self).deleted@
                    &&& (match name {
                        Option::Some(_) => final(self).type_seqs@ == old(self).type_seqs@,
                        Option::None => map_val(final(self).type_seqs@, cyberlink.type_@)
                            == map_val(old(self).type_seqs@, cyberlink.type_@) + 1 && (forall|
                            t: Seq<char>|
                            t != cyberlink.type_@ ==> #[trigger] map_val(
                                final(self).type_seqs@,
                                t,
                            ) == map_val(old(self).type_seqs@, t)),
                    })
                },
                Result::Err(e) => {
                    &&& old(self).same_state(*final(self))
                    &&& name matches Option::Some(n) && key_has(old(self).names@, n@)
                    &&& e matches ContractError::NameTaken { name: nn } && nn@ == (match name {
                        Option::Some(n2) => n2@,
                        Option::None => Seq::<char>::empty(),
                    })
                },
            },
    {
        let ghost s0 = *old(self);
        proof {
            lemma_names_sorted_unique(s0.names@);
            lemma_links_len_bound(s0.links@, s0.last_gid);
        }
        let gid: u64 = self.last_gid + 1;
        let type_str: String = cyberlink.type_.clone();
        let ghost nm = name;
        let fid: String = match name {
            Option::Some(n) => {
                let taken = assoc_lookup(&self.names, n.as_str());
                if taken.is_some() {
                    return Result::Err(ContractError::NameTaken { name: n });
                }
                n
            },
            Option::None => {
                proof {
                    if key_has(s0.type_seqs@, type_str@) {
                        let i = key_idx(s0.type_seqs@, type_str@);
                        assert(s0.type_seqs@[i].0@ == type_str@);
                        lemma_key_idx_is(s0.type_seqs@, i);
                    }
                    assert(map_val(s0.type_seqs@, type_str@) <= s0.last_gid);
                }
                let sq = map_bump(&mut self.type_seqs, type_str.as_str());
                proof {
                    assert(!key_has(s0.names@, auto_fid(type_str@, sq as nat)));
                }
                make_auto_fid(type_str.as_str(), sq)
            },
        };
        proof {
            assert(!key_has(s0.names@, fid@));
        }
        let st = CyberlinkState {
            fid: Option::Some(fid.clone()),
            type_: cyberlink.type_,
            from: match cyberlink.from {
                Option::Some(f) => f,
                Option::None => String::from_str("Any"),
            },
            to: match cyberlink.to {
                Option::Some(t) => t,
                Option::None => String::from_str("Any"),
            },
            value: match cyberlink.value {
                Option::Some(v) => v,
                Option::None => String::new(),
            },
            owner: String::from_str(owner),
            created_at: time,
            updated_at: Option::None,
        };
        let ghost stg = st;
        self.links.push((gid, st));
        self.last_gid = gid;
        let fid_copy = fid.clone();
        insert_name(&mut self.names, fid_copy, gid);
        proof {
            assert(map_val(s0.owner_counts@, owner@) == s0.live_owned(owner@));
            lemma_count_by_le_len(s0.links@, owner_pred(owner@));
            assert(map_val(s0.type_counts@, type_str@) == s0.live_typed(type_str@));
            lemma_count_by_le_len(s0.links@, type_pred(type_str@));
            assert(map2_val(s0.owner_type_counts@, owner@, type_str@) == s0.live_owned_typed(
                owner@,
                type_str@,
            ));
            lemma_count_by_le_len(s0.links@, owner_type_pred(owner@, type_str@));
        }
        map_bump(&mut self.owner_counts, owner);
        map_bump(&mut self.type_counts, type_str.as_str());
        map2_bump(&mut self.owner_type_counts, owner, type_str.as_str());
        proof {
            let s1 = *self;
            let links1 = s1.links@;
            assert(links1 == s0.links@.push((gid, stg)));
            // primary order and bounds
            assert forall|i: int, j: int| 0 <= i < j < links1.len() implies links1[i].0
                < links1[j].0 by {
                if j < s0.links@.len() {
                } else {
                    assert(links1[j] == (gid, stg));
                    assert(links1[i] == s0.links@[i]);
                }
            }
            // the new id is neither live before nor deleted
            assert forall|i: int| 0 <= i < s1.deleted@.len() implies 1 <= (
            #[trigger] s1.deleted@[i]) && s1.deleted@[i] <= s1.last_gid by {}
            // name map entries still point at live or deleted records
            let p = choose|q: int|
                0 <= q <= s0.names@.len() && s1.names@ == s0.names@.insert(q, (fid, gid));
            assert(0 <= p <= s0.names@.len() && s1.names@ == s0.names@.insert(p, (fid, gid)));
            assert forall|i: int| 0 <= i < s1.names@.len() implies has_gid(
                s1.links@,
                (#[trigger] s1.names@[i]).1,
            ) || del_has(s1.deleted@, s1.names@[i].1) by {
                if i == p {
                    assert(s1.names@[i].1 == gid);
                    assert(links1[s0.links@.len() as int].0 == gid);
                } else {
                    let i0 = if i < p {
                        i
                    } else {
                        i - 1
                    };
                    assert(s1.names@[i] == s0.names@[i0]);
                    if has_gid(s0.links@, s0.names@[i0].1) {
                        let w = crate::model::gid_idx(s0.links@, s0.names@[i0].1);
                        assert(s0.links@[w].0 == s0.names@[i0].1);
                        assert(links1[w].0 == s0.names@[i0].1);
                    }
                }
            }
            // live records are not tombstoned
            assert forall|i: int| 0 <= i < links1.len() implies !del_has(
                s1.deleted@,
                (#[trigger] links1[i]).0,
            ) by {
                if i < s0.links@.len() {
                } else {
                    assert(links1[i].0 == gid);
                    if del_has(s1.deleted@, gid) {
                        let w = choose|w: int|
                            0 <= w < s1.deleted@.len() && s1.deleted@[w] == gid;
                        assert(s0.deleted@[w] <= s0.last_gid);
                    }
                }
            }
            // per-type sequence bounds
            assert forall|i: int| 0 <= i < s1.type_seqs@.len() implies 1 <= (
            #[trigger] s1.type_seqs@[i]).1 && s1.type_seqs@[i].1 <= s1.last_gid by {
                lemma_key_idx_is(s1.type_seqs@, i);
                let k = s1.type_seqs@[i].0@;
                assert(s1.type_seqs@[i].1 == map_val(s1.type_seqs@, k));
                if nm is None && k == cyberlink.type_@ {
                    assert(map_val(s1.type_seqs@, k) == map_val(s0.type_seqs@, k) + 1);
                    if key_has(s0.type_seqs@, k) {
                        lemma_key_idx_is(s0.type_seqs@, key_idx(s0.type_seqs@, k));
                    }
                } else {
                    assert(map_val(s1.type_seqs@, k) == map_val(s0.type_seqs@, k));
                    if key_has(s0.type_seqs@, k) {
                        lemma_key_idx_is(s0.type_seqs@, key_idx(s0.type_seqs@, k));
                    }
                }
            }
            // auto-generated ids above the per-type sequence stay fresh
            assert forall|t: Seq<char>, k: nat| k > map_val(s1.type_seqs@, t) implies !(
            #[trigger] key_has(s1.names@, auto_fid(t, k))) by {
                if auto_fid(t, k) == fid@ {
                    match nm {
                        Option::Some(n) => {
                            lemma_named_ne_auto(n@, t, k);
                        },
                        Option::None => {
                            let sq1 = (map_val(s0.type_seqs@, cyberlink.type_@) + 1) as nat;
                            lemma_auto_fid_injective(t, k, cyberlink.type_@, sq1);
                            assert(t == cyberlink.type_@ && k == sq1);
                            assert(map_val(s1.type_seqs@, t) == sq1);
                        },
                    }
                } else {
                    assert(key_has(s1.names@, auto_fid(t, k)) == key_has(
                        s0.names@,
                        auto_fid(t, k),
                    ));
                    if nm is None && t == cyberlink.type_@ {
                        assert(map_val(s1.type_seqs@, t) == map_val(s0.type_seqs@, t) + 1);
                        assert(!key_has(s0.names@, auto_fid(t, k)));
                    } else {
                        assert(map_val(s1.type_seqs@, t) == map_val(s0.type_seqs@, t));
                        assert(!key_has(s0.names@, auto_fid(t, k)));
                    }
                }
            }
            // counters still agree with the live records
            assert forall|o: Seq<char>| #[trigger] map_val(s1.owner_counts@, o)
                == s1.live_owned(o) by {
                lemma_count_by_push(s0.links@, owner_pred(o), (gid, stg));
                if o == owner@ {
                } else {
                    assert(map_val(s1.owner_counts@, o) == map_val(s0.owner_counts@, o));
                }
            }
            assert forall|t: Seq<char>| #[trigger] map_val(s1.type_counts@, t)
                == s1.live_typed(t) by {
                lemma_count_by_push(s0.links@, type_pred(t), (gid, stg));
                if t == stg.type_@ {
                    assert(map_val(s1.type_counts@, t) == map_val(s0.type_counts@, t) + 1);
                } else {
                    assert(map_val(s1.type_counts@, t) == map_val(s0.type_counts@, t));
                }
            }
            assert forall|o: Seq<char>, t: Seq<char>| #[trigger] map2_val(
                s1.owner_type_counts@,
                o,
                t,
            ) == s1.live_owned_typed(o, t) by {
                lemma_count_by_push(s0.links@, owner_type_pred(o, t), (gid, stg));
                if o == owner@ && t == stg.type_@ {
                    assert(map2_val(s1.owner_type_counts@, o, t) == map2_val(
                        s0.owner_type_counts@,
                        o,
                        t,
                    ) + 1);
                } else {
                    assert(map2_val(s1.owner_type_counts@, o, t) == map2_val(
                        s0.owner_type_counts@,
                        o,
                        t,
                    ));
                }
            }
        }
        Result::Ok((gid, fid))
    }

    /// Creates a schema-defining link under a caller-chosen, colon-free
    /// name.  Only a capability holder for "modify" may; the name is
    /// validated, the candidate link is validated, and the name must never
    /// have been assigned before.
    pub fn execute_create_named_cyberlink(
        &mut self,
        sender: &str,
        time: u64,
        name: String,
        cyberlink: Cyberlink,
    ) -> (r: Result<(u64, String), ContractError>)
        requires
            old(self).wf(),
            old(self).last_gid < u64::MAX,
        ensures
            final(self).wf(),
            final(self).config == old(self).config,
            match r {
                Result::Ok(out) => {
                    &&& old(self).config.spec_can_modify(sender@)
                    &&& no_colon(name@)
                    &&& old(self).validate_ok(cyberlink)
                    &&& out.1@ == name@
                    &&& created_effect(
                        *old(self),
                        *final(self),
                        name@,
                        out.0,
                        cyberlink,
                        sender@,
                        time,
                    )
                    &&& final(self).type_seqs@ == old(self).type_seqs@
                },
                Result::Err(e) => {
                    &&& old(self).same_state(*final(self))
                    &&& old(self).create_named_err_matches(sender@, name@, cyberlink, e)
                },
            },
    {
        let can = self.config.can_modify(sender);
        if !can {
            return Result::Err(ContractError::Unauthorized {  });
        }
        if crate::text::contains_colon(name.as_str()) {
            return Result::Err(ContractError::InvalidNameFormat { name });
        }
        match self.validate_cyberlink(&cyberlink) {
            Result::Err(e) => {
                return Result::Err(e);
            },
            Result::Ok(u) => u,
        };
        self.create_cyberlink(Option::Some(name), cyberlink, sender, time)
    }

    /// Creates a link under an auto-generated `"<type>:<n>"` formatted id.
    /// Only a capability holder for "execute" may; the candidate is
    /// validated first.
    pub fn execute_create_cyberlink(
        &mut self,
        sender: &str,
        time: u64,
        cyberlink: Cyberlink,
    ) -> (r: Result<(u64, String), ContractError>)
        requires
            old(self).wf(),
            old(self).last_gid < u64::MAX,
        ensures
            final(self).wf(),
            final(self).config == old(self).config,
            match r {
                Result::Ok(out) => {
                    &&& old(self).config.spec_can_execute(sender@)
                    &&& old(self).validate_ok(cyberlink)
                    &&& out.1@ == auto_fid(
                        cyberlink.type_@,
                        (map_val(old(self).type_seqs@, cyberlink.type_@) + 1) as nat,
                    )
                    &&& created_effect(
                        *old(self),
                        *final(self),
                        out.1@,
                        out.0,
                        cyberlink,
                        sender@,
                        time,
                    )
                    &&& map_val(final(self).type_seqs@, cyberlink.type_@) == map_val(
                        old(self).type_seqs@,
                        cyberlink.type_@,
                    ) + 1
                    &&& forall|t: Seq<char>|
                        t != cyberlink.type_@ ==> #[trigger] map_val(final(self).type_seqs@, t)
                            == map_val(old(self).type_seqs@, t)
                },
                Result::Err(e) => {
                    &&& old(self).same_state(*final(self))
                    &&& old(self).create_auto_err_matches(sender@, cyberlink, e)
                },
            },
    {
        let can = self.config.can_execute(sender);
        if !can {
            return Result::Err(ContractError::Unauthorized {  });
        }
        match self.validate_cyberlink(&cyberlink) {
            Result::Err(e) => {
                return Result::Err(e);
            },
            Result::Ok(u) => u,
        };
        let res = self.create_cyberlink(Option::None, cyberlink, sender, time);
        match res {
            Result::Ok(out) => Result::Ok(out),
            Result::Err(e) => {
                proof {
                    assert(false);
                }
                Result::Err(e)
            },
        }
    }

    /// Updates a link's value and stamps `updated_at`.  Only the link's
    /// owner or an administrator may; the formatted id must resolve and must
    /// not be tombstoned.  Type, endpoints, owner and creation time are
    /// immutable.
    pub fn execute_update_cyberlink(
        &mut self,
        sender: &str,
        time: u64,
        fid: String,
        value: Option<String>,
    ) -> (r: Result<u64, ContractError>)
        requires
            old(self).wf(),
        ensures
            final(self).wf(),
            final(self).config == old(self).config,
            match r {
                Result::Ok(gid) => {
                    &&& key_has(old(self).names@, fid@)
                    &&& key_val(old(self).names@, fid@) == gid
                    &&& !old(self).is_deleted(gid)
                    &&& old(self).is_live(gid)
                    &&& old(self).live_link(gid).owner@ == sender@ || old(
                        self,
                    ).config.spec_is_admin(sender@)
                    &&& final(self).last_gid == old(self).last_gid
                    &&& final(self).names@ == old(self).names@
                    &&& final(self).deleted@ == old(self).deleted@
                    &&& final(self).type_seqs@ == old(self).type_seqs@
                    &&& final(self).links@.len() == old(self).links@.len()
                    &&& forall|i: int|
                        0 <= i < old(self).links@.len() && i != gid_idx(old(self).links@, gid)
                            ==> #[trigger] final(self).links@[i] == old(self).links@[i]
                    &&& final(self).is_live(gid)
                    &&& updated_fields(
                        old(self).live_link(gid),
                        final(self).live_link(gid),
                        value,
                        time,
                    )
                },
                Result::Err(e) => {
                    &&& old(self).same_state(*final(self))
                    &&& old(self).touch_err_matches(sender@, fid@, e)
                },
            },
    {
        proof {
            lemma_names_sorted_unique(self.names@);
        }
        let ghost s0 = *old(self);
        let gid = match assoc_lookup(&self.names, fid.as_str()) {
            Option::None => {
                return Result::Err(ContractError::NotFound { fid });
            },
            Option::Some(g) => g,
        };
        if del_contains(&self.deleted, gid) {
            return Result::Err(ContractError::DeletedCyberlink { fid });
        }
        let j = match find_link(&self.links, gid) {
            Option::None => {
                proof {
                    let i = key_idx(s0.names@, fid@);
                    assert(s0.names@[i].1 == gid);
                    assert(false);
                }
                return Result::Err(ContractError::NotFound { fid });
            },
            Option::Some(j) => j,
        };
        let owner_is = crate::text::str_eq(self.links[j].1.owner.as_str(), sender);
        let is_adm = self.config.is_admin(sender);
        if !owner_is && !is_adm {
            return Result::Err(ContractError::Unauthorized {  });
        }
        let pair = self.links.remove(j);
        let newst = CyberlinkState {
            fid: pair.1.fid,
            type_: pair.1.type_,
            from: pair.1.from,
            to: pair.1.to,
            value: match value {
                Option::Some(v) => v,
                Option::None => String::new(),
            },
            owner: pair.1.owner,
            created_at: pair.1.created_at,
            updated_at: Option::Some(time),
        };
        self.links.insert(j, (gid, newst));
        proof {
            let s1 = *self;
            let links0 = s0.links@;
            let links1 = s1.links@;
            assert(links1 =~= links0.update(j as int, links1[j as int]));
            assert(forall|i: int| 0 <= i < links1.len() ==> (#[trigger] links1[i]).0 == links0[i].0);
            assert forall|i: int| 0 <= i < links1.len() implies !del_has(
                s1.deleted@,
                (#[trigger] links1[i]).0,
            ) by {
                assert(links1[i].0 == links0[i].0);
            }
            assert forall|i: int| 0 <= i < s1.names@.len() implies has_gid(
                s1.links@,
                (#[trigger] s1.names@[i]).1,
            ) || del_has(s1.deleted@, s1.names@[i].1) by {
                if has_gid(links0, s0.names@[i].1) {
                    let w = crate::model::gid_idx(links0, s0.names@[i].1);
                    assert(links1[w].0 == s0.names@[i].1);
                }
            }
            let lj = links1[j as int];
            assert forall|o: Seq<char>| #[trigger] map_val(s1.owner_counts@, o)
                == s1.live_owned(o) by {
                crate::model::lemma_count_by_update(links0, owner_pred(o), j as int, lj);
            }
            assert forall|t: Seq<char>| #[trigger] map_val(s1.type_counts@, t)
                == s1.live_typed(t) by {
                crate::model::lemma_count_by_update(links0, type_pred(t), j as int, lj);
            }
            assert forall|o: Seq<char>, t: Seq<char>| #[trigger] map2_val(
                s1.owner_type_counts@,
                o,
                t,
            ) == s1.live_owned_typed(o, t) by {
                crate::model::lemma_count_by_update(links0, owner_type_pred(o, t), j as int, lj);
            }
            lemma_gid_idx_is(links0, j as int);
            lemma_gid_idx_is(links1, j as int);
        }
        Result::Ok(gid)
    }

    /// Soft-deletes a link: the record and its index entries go, the three
    /// counters come down, a tombstone is written, and the formatted-id
    /// mapping stays forever.  Only the owner or an administrator may.
    pub fn execute_delete_cyberlink(&mut self, sender: &str, fid: String) -> (r: Result<
        u64,
        ContractError,
    >)
        requires
            old(self).wf(),
        ensures
            final(self).wf(),
            final(self).config == old(self).config,
            match r {
                Result::Ok(gid) => {
                    &&& key_has(old(self).names@, fid@)
                    &&& key_val(old(self).names@, fid@) == gid
                    &&& !old(self).is_deleted(gid)
                    &&& old(self).is_live(gid)
                    &&& old(self).live_link(gid).owner@ == sender@ || old(
                        self,
                    ).config.spec_is_admin(sender@)
                    &&& final(self).last_gid == old(self).last_gid
                    &&& final(self).names@ == old(self).names@
                    &&& final(self).type_seqs@ == old(self).type_seqs@
                    &&& final(self).deleted@ == old(self).deleted@.push(gid)
                    &&& final(self).links@ == old(self).links@.remove(
                        gid_idx(old(self).links@, gid),
                    )
                    &&& final(self).is_deleted(gid)
                    &&& !final(self).is_live(gid)
                },
                Result::Err(e) => {
                    &&& old(self).same_state(*final(self))
                    &&& old(self).touch_err_matches(sender@, fid@, e)
                },
            },
    {
        proof {
            lemma_names_sorted_unique(self.names@);
        }
        let ghost s0 = *old(self);
        let gid = match assoc_lookup(&self.names, fid.as_str()) {
            Option::None => {
                return Result::Err(ContractError::NotFound { fid });
            },
            Option::Some(g) => g,
        };
        if del_contains(&self.deleted, gid) {
            return Result::Err(ContractError::DeletedCyberlink { fid });
        }
        let j = match find_link(&self.links, gid) {
            Option::None => {
                proof {
                    let i = key_idx(s0.names@, fid@);
                    assert(s0.names@[i].1 == gid);
                    assert(false);
                }
                return Result::Err(ContractError::NotFound { fid });
            },
            Option::Some(j) => j,
        };
        let owner_is = crate::text::str_eq(self.links[j].1.owner.as_str(), sender);
        let is_adm = self.config.is_admin(sender);
        if !owner_is && !is_adm {
            return Result::Err(ContractError::Unauthorized {  });
        }
        let pair = self.links.remove(j);
        self.deleted.push(gid);
        proof {
            crate::model::lemma_count_by_pos(s0.links@, owner_pred(pair.1.owner@), j as int);
            crate::model::lemma_count_by_pos(s0.links@, type_pred(pair.1.type_@), j as int);
            crate::model::lemma_count_by_pos(
                s0.links@,
                owner_type_pred(pair.1.owner@, pair.1.type_@),
                j as int,
            );
        }
        map_drop(&mut self.owner_counts, pair.1.owner.as_str());
        map_drop(&mut self.type_counts, pair.1.type_.as_str());
        crate::state::map2_drop(
            &mut self.owner_type_counts,
            pair.1.owner.as_str(),
            pair.1.type_.as_str(),
        );
        proof {
            let s1 = *self;
            let links0 = s0.links@;
            let links1 = s1.links@;
            assert(links1 == links0.remove(j as int));
            assert forall|a: int, b: int| 0 <= a < b < links1.len() implies links1[a].0
                < links1[b].0 by {
                let a0 = if a < j as int {
                    a
                } else {
                    a + 1
                };
                let b0 = if b < j as int {
                    b
                } else {
                    b + 1
                };
                assert(links1[a] == links0[a0]);
                assert(links1[b] == links0[b0]);
            }
            assert forall|i: int| 0 <= i < links1.len() implies 1 <= (#[trigger] links1[i]).0
                && links1[i].0 <= s1.last_gid by {
                let i0 = if i < j as int {
                    i
                } else {
                    i + 1
                };
                assert(links1[i] == links0[i0]);
            }
            assert forall|i: int| 0 <= i < s1.names@.len() implies has_gid(
                s1.links@,
                (#[trigger] s1.names@[i]).1,
            ) || del_has(s1.deleted@, s1.names@[i].1) by {
                let v = s1.names@[i].1;
                if v == gid {
                    assert(s1.deleted@.last() == gid);
                } else if has_gid(links0, v) {
                    let w = crate::model::gid_idx(links0, v);
                    assert(links0[w].0 == v);
                    lemma_gid_idx_is(links0, j as int);
                    assert(w != j as int);
                    let w1 = if w < j as int {
                        w
                    } else {
                        w - 1
                    };
                    assert(links1[w1] == links0[w]);
                } else {
                    assert(del_has(s0.deleted@, v));
                    let w = choose|w: int| 0 <= w < s0.deleted@.len() && s0.deleted@[w] == v;
                    assert(s1.deleted@[w] == v);
                }
            }
            assert forall|i: int| 0 <= i < links1.len() implies !del_has(
                s1.deleted@,
                (#[trigger] links1[i]).0,
            ) by {
                let i0 = if i < j as int {
                    i
                } else {
                    i + 1
                };
                assert(links1[i] == links0[i0]);
                lemma_gid_idx_is(links0, j as int);
                lemma_gid_idx_is(links0, i0);
                assert(links1[i].0 != gid);
                if del_has(s1.deleted@, links1[i].0) {
                    let w = choose|w: int|
                        0 <= w < s1.deleted@.len() && s1.deleted@[w] == links1[i].0;
                    assert(w < s0.deleted@.len());
                    assert(del_has(s0.deleted@, links0[i0].0));
                }
            }
            assert forall|i: int| 0 <= i < s1.deleted@.len() implies 1 <= (
            #[trigger] s1.deleted@[i]) && s1.deleted@[i] <= s1.last_gid by {
                if i < s0.deleted@.len() {
                } else {
                    assert(s1.deleted@[i] == gid);
                }
            }
            assert forall|o: Seq<char>| #[trigger] map_val(s1.owner_counts@, o)
                == s1.live_owned(o) by {
                crate::model::lemma_count_by_remove(links0, owner_pred(o), j as int);
                if o == pair.1.owner@ {
                } else {
                    assert(map_val(s1.owner_counts@, o) == map_val(s0.owner_counts@, o));
                }
            }
            assert forall|t: Seq<char>| #[trigger] map_val(s1.type_counts@, t)
                == s1.live_typed(t) by {
                crate::model::lemma_count_by_remove(links0, type_pred(t), j as int);
                if t == pair.1.type_@ {
                } else {
                    assert(map_val(s1.type_counts@, t) == map_val(s0.type_counts@, t));
                }
            }
            assert forall|o: Seq<char>, t: Seq<char>| #[trigger] map2_val(
                s1.owner_type_counts@,
                o,
                t,
            ) == s1.live_owned_typed(o, t) by {
                crate::model::lemma_count_by_remove(links0, owner_type_pred(o, t), j as int);
                if o == pair.1.owner@ && t == pair.1.type_@ {
                } else {
                    assert(map2_val(s1.owner_type_counts@, o, t) == map2_val(
                        s0.owner_type_counts@,
                        o,
                        t,
                    ));
                }
            }
            lemma_gid_idx_is(links0, j as int);
            assert(s1.is_deleted(gid)) by {
                assert(s1.deleted@.last() == gid);
            }
            assert(!s1.is_live(gid)) by {
                if has_gid(links1, gid) {
                    let w = crate::model::gid_idx(links1, gid);
                    let w0 = if w < j as int {
                        w
                    } else {
                        w + 1
                    };
                    assert(links1[w] == links0[w0]);
                    lemma_gid_idx_is(links0, w0);
                }
            }
        }
        Result::Ok(gid)
    }

    /// Replaces the administrator list; administrators only.
    pub fn execute_update_admins(&mut self, sender: &str, new_admins: Vec<String>) -> (r: Result<
        (),
        ContractError,
    >)
        requires
            old(self).wf(),
        ensures
            final(self).wf(),
            old(self).same_store(*final(self)),
            match r {
                Result::Ok(u) => {
                    &&& old(self).config.spec_is_admin(sender@)
                    &&& final(self).config.admins@ == new_admins@
                    &&& final(self).config.executors@ == old(self).config.executors@
                },
                Result::Err(e) => {
                    &&& !old(self).config.spec_is_admin(sender@)
                    &&& e matches ContractError::Unauthorized {  }
                    &&& final(self).config == old(self).config
                },
            },
    {
        let is_adm = self.config.is_admin(sender);
        if !is_adm {
            return Result::Err(ContractError::Unauthorized {  });
        }
        self.config.admins = new_admins;
        Result::Ok(())
    }

    /// Replaces the executor list; administrators only.
    pub fn execute_update_executors(&mut self, sender: &str, new_executors: Vec<String>) -> (r:
        Result<(), ContractError>)
        requires
            old(self).wf(),
        ensures
            final(self).wf(),
            old(self).same_store(*final(self)),
            match r {
                Result::Ok(u) => {
                    &&& old(self).config.spec_is_admin(sender@)
                    &&& final(self).config.executors@ == new_executors@
                    &&& final(self).config.admins@ == old(self).config.admins@
                },
                Result::Err(e) => {
                    &&& !old(self).config.spec_is_admin(sender@)
                    &&& e matches ContractError::Unauthorized {  }
                    &&& final(self).config == old(self).config
                },
            },
    {
        let is_adm = self.config.is_admin(sender);
        if !is_adm {
            return Result::Err(ContractError::Unauthorized {  });
        }
        self.config.executors = new_executors;
        Result::Ok(())
    }

    /// Creates a batch of links under auto-generated ids.  Each item is
    /// validated against the store as it stands at its turn and created
    /// independently; outcomes are reported per item, in order, and a
    /// failing item never disturbs the ones that succeed.
    pub fn execute_create_cyberlinks(
        &mut self,
        sender: &str,
        time: u64,
        cyberlinks: Vec<Cyberlink>,
    ) -> (r: Result<Vec<Result<(u64, String), ContractError>>, ContractError>)
        requires
            old(self).wf(),
            old(self).last_gid + cyberlinks@.len() <= u64::MAX,
        ensures
            final(self).wf(),
            final(self).config == old(self).config,
            match r {
                Result::Ok(results) => {
                    &&& old(self).config.spec_can_execute(sender@)
                    &&& results@.len() == cyberlinks@.len()
                    &&& exists|steps: Seq<GraphStore>|
                        #[trigger] batch_trace(cyberlinks@, sender@, time, steps, results@)
                            && steps[0] == *old(self) && steps[cyberlinks@.len() as int]
                            == *final(self)
                    &&& final(self).last_gid <= old(self).last_gid + cyberlinks@.len()
                    &&& final(self).deleted@ == old(self).deleted@
                    &&& forall|k: Seq<char>|
                        key_has(old(self).names@, k) ==> #[trigger] key_has(final(self).names@, k)
                    &&& forall|k: Seq<char>|
                        key_has(old(self).names@, k) ==> #[trigger] key_val(final(self).names@, k)
                            == key_val(old(self).names@, k)
                },
                Result::Err(e) => {
                    &&& old(self).same_state(*final(self))
                    &&& !old(self).config.spec_can_execute(sender@)
                    &&& e matches ContractError::Unauthorized {  }
                },
            },
    {
        let can = self.config.can_execute(sender);
        if !can {
            return Result::Err(ContractError::Unauthorized {  });
        }
        let ghost s0 = *old(self);
        let mut results: Vec<Result<(u64, String), ContractError>> = Vec::new();
        let mut created_count: u64 = 0;
        let n: usize = cyberlinks.len();
        let mut i: usize = 0;
        let mut rest = cyberlinks;
        let ghost items = rest@;
        let ghost mut steps: Seq<GraphStore> = seq![*old(self)];
        proof {
            assert(rest@ =~= items.skip(0));
        }
        while i < n
            invariant
                0 <= i <= n,
                n == items.len(),
                rest@ == items.skip(i as int),
                self.wf(),
                self.config == s0.config,
                results@.len() == i,
                steps.len() == i + 1,
                steps[0] == s0,
                steps[i as int] == *self,
                forall|j: int|
                    0 <= j < i ==> #[trigger] batch_step(
                        steps[j],
                        items[j],
                        sender@,
                        time,
                        steps[j + 1],
                        results@[j],
                    ),
                created_count <= i,
                self.last_gid == s0.last_gid + created_count,
                s0.last_gid + (n - i) + created_count <= u64::MAX,
                self.deleted@ == s0.deleted@,
                forall|k: Seq<char>|
                    key_has(s0.names@, k) ==> #[trigger] key_has(self.names@, k),
                forall|k: Seq<char>|
                    key_has(s0.names@, k) ==> #[trigger] key_val(self.names@, k) == key_val(
                        s0.names@,
                        k,
                    ),
            decreases n - i,
        {
            let ghost pre = *self;
            let item = rest.remove(0);
            proof {
                assert(items.skip(i as int)[0] == items[i as int]);
                assert(item == items[i as int]);
                assert(rest@ =~= items.skip(i + 1));
            }
            let valid = self.validate_cyberlink(&item);
            match valid {
                Result::Err(e) => {
                    results.push(Result::Err(e));
                },
                Result::Ok(u) => {
                    let res = self.create_cyberlink(Option::None, item, sender, time);
                    match res {
                        Result::Ok(out) => {
                            created_count = created_count + 1;
                            results.push(Result::Ok(out));
                        },
                        Result::Err(e) => {
                            proof {
                                assert(false);
                            }
                            results.push(Result::Err(e));
                        },
                    }
                },
            }
            proof {
                steps = steps.push(*self);
                assert(steps[i + 1] == *self);
                assert(batch_step(
                    pre,
                    items[i as int],
                    sender@,
                    time,
                    steps[i + 1],
                    results@[i as int],
                ));
            }
            i = i + 1;
        }
        proof {
            assert(items == cyberlinks@);
            assert(batch_trace(cyberlinks@, sender@, time, steps, results@));
        }
        Result::Ok(results)
    }

    /// Creates a vertex and, in the same step, an edge between it and an
    /// existing record.  Exactly one of the two `link_*_existing_id`
    /// parameters names the existing end; the other end is the new vertex.
    pub fn execute_create_cyberlink2(
        &mut self,
        sender: &str,
        time: u64,
        node_type: String,
        node_value: Option<String>,
        link_type: String,
        link_value: Option<String>,
        link_from_existing_id: Option<String>,
        link_to_existing_id: Option<String>,
    ) -> (r: Result<((u64, String), (u64, String)), ContractError>)
        requires
            old(self).wf(),
            old(self).last_gid + 2 <= u64::MAX,
        ensures
            final(self).wf(),
            final(self).config == old(self).config,
            r is Err ==> old(self).same_state(*final(self)),
            match r {
                Result::Ok(out) => {
                    &&& old(self).config.spec_can_execute(sender@)
                    &&& (link_from_existing_id is Some) != (link_to_existing_id is Some)
                    &&& old(self).name_live(node_type@)
                    &&& old(self).name_live(link_type@)
                    &&& old(self).name_live(
                        some_view(
                            if link_from_existing_id is Some {
                                link_from_existing_id
                            } else {
                                link_to_existing_id
                            },
                        ),
                    )
                    &&& out.0.0 == old(self).last_gid + 1
                    &&& out.1.0 == old(self).last_gid + 2
                    &&& final(self).last_gid == old(self).last_gid + 2
                    &&& out.0.1@ == auto_fid(
                        node_type@,
                        (map_val(old(self).type_seqs@, node_type@) + 1) as nat,
                    )
                    &&& out.1.1@ == auto_fid(
                        link_type@,
                        (map_val(old(self).type_seqs@, link_type@) + (if link_type@ == node_type@ {
                            2int
                        } else {
                            1int
                        })) as nat,
                    )
                    &&& final(self).links@.len() == old(self).links@.len() + 2
                    &&& forall|i: int|
                        0 <= i < old(self).links@.len() ==> #[trigger] final(self).links@[i]
                            == old(self).links@[i]
                    &&& final(self).links@[old(self).links@.len() as int].0 == out.0.0
                    &&& final(self).links@[old(self).links@.len() as int].1.type_@ == node_type@
                    &&& final(self).links@[old(self).links@.len() as int].1.from@ == "Any"@
                    &&& final(self).links@[old(self).links@.len() as int].1.to@ == "Any"@
                    &&& final(self).links@[old(self).links@.len() as int].1.owner@ == sender@
                    &&& final(self).links@[old(self).links@.len() as int].1.value@ == (match node_value {
                        Option::Some(v) => v@,
                        Option::None => Seq::<char>::empty(),
                    })
                    &&& final(self).links@[old(self).links@.len() as int].1.created_at == time
                    &&& final(self).links@[old(self).links@.len() as int].1.updated_at is None
                    &&& final(self).links@[old(self).links@.len() as int].1.fid
                        matches Option::Some(f) && f@ == out.0.1@
                    &&& final(self).links@.last().0 == out.1.0
                    &&& final(self).links@.last().1.type_@ == link_type@
                    &&& final(self).links@.last().1.from@ == (if link_from_existing_id is Some {
                        some_view(link_from_existing_id)
                    } else {
                        out.0.1@
                    })
                    &&& final(self).links@.last().1.to@ == (if link_to_existing_id is Some {
                        some_view(link_to_existing_id)
                    } else {
                        out.0.1@
                    })
                    &&& final(self).links@.last().1.owner@ == sender@
                    &&& final(self).links@.last().1.value@ == (match link_value {
                        Option::Some(v) => v@,
                        Option::None => Seq::<char>::empty(),
                    })
                    &&& final(self).links@.last().1.created_at == time
                    &&& final(self).links@.last().1.updated_at is None
                    &&& final(self).links@.last().1.fid matches Option::Some(f) && f@ == out.1.1@
                    &&& final(self).deleted@ == old(self).deleted@
                },
                Result::Err(e) => {
                    &&& old(self).same_state(*final(self))
                    &&& old(self).vertex_link_err_matches(
                        sender@,
                        node_type@,
                        link_type@,
                        link_from_existing_id,
                        link_to_existing_id,
                        e,
                    )
                },
            },
    {
        proof {
            lemma_names_sorted_unique(self.names@);
        }
        let ghost s0 = *old(self);
        let can = self.config.can_execute(sender);
        if !can {
            return Result::Err(ContractError::Unauthorized {  });
        }
        let (existing_node_fid, link_from_new) = match (
            &link_from_existing_id,
            &link_to_existing_id,
        ) {
            (Option::Some(from_id), Option::None) => (from_id.clone(), false),
            (Option::None, Option::Some(to_id)) => (to_id.clone(), true),
            _ => {
                return Result::Err(ContractError::InvalidLinkSpecification {  });
            },
        };
        let node_type_gid = match assoc_lookup(&self.names, node_type.as_str()) {
            Option::None => {
                return Result::Err(ContractError::TypeNotExists { type_: node_type });
            },
            Option::Some(g) => g,
        };
        match find_link(&self.links, node_type_gid) {
            Option::None => {
                return Result::Err(ContractError::TypeNotExists { type_: node_type });
            },
            Option::Some(i) => i,
        };
        let link_type_gid = match assoc_lookup(&self.names, link_type.as_str()) {
            Option::None => {
                return Result::Err(ContractError::TypeNotExists { type_: link_type });
            },
            Option::Some(g) => g,
        };
        let lti = match find_link(&self.links, link_type_gid) {
            Option::None => {
                return Result::Err(ContractError::TypeNotExists { type_: link_type });
            },
            Option::Some(i) => i,
        };
        let existing_gid = match assoc_lookup(&self.names, existing_node_fid.as_str()) {
            Option::None => {
                if link_from_new {
                    return Result::Err(ContractError::ToNotExists { to: existing_node_fid });
                } else {
                    return Result::Err(ContractError::FromNotExists { from: existing_node_fid });
                }
            },
            Option::Some(g) => g,
        };
        if del_contains(&self.deleted, existing_gid) {
            return Result::Err(ContractError::NotFound { fid: existing_node_fid });
        }
        let ei = match find_link(&self.links, existing_gid) {
            Option::None => {
                proof {
                    let i = key_idx(s0.names@, existing_node_fid@);
                    assert(s0.names@[i].1 == existing_gid);
                    assert(false);
                }
                return Result::Err(ContractError::NotFound { fid: existing_node_fid });
            },
            Option::Some(i) => i,
        };
        match validate_type_compatibility_for_cyberlink2(
            &self.links[lti].1,
            node_type.as_str(),
            &self.links[ei].1,
            link_from_new,
            existing_node_fid.as_str(),
        ) {
            Result::Err(e) => {
                return Result::Err(e);
            },
            Result::Ok(u) => u,
        };
        let node_cyberlink = Cyberlink {
            type_: node_type,
            from: Option::None,
            to: Option::None,
            value: node_value,
        };
        let node_out = match self.create_cyberlink(Option::None, node_cyberlink, sender, time) {
            Result::Ok(out) => out,
            Result::Err(e) => {
                proof {
                    assert(false);
                }
                return Result::Err(e);
            },
        };
        let (link_from, link_to) = if link_from_new {
            (node_out.1.clone(), existing_node_fid)
        } else {
            (existing_node_fid, node_out.1.clone())
        };
        let link_cyberlink = Cyberlink {
            type_: link_type,
            from: Option::Some(link_from),
            to: Option::Some(link_to),
            value: link_value,
        };
        let link_out = match self.create_cyberlink(Option::None, link_cyberlink, sender, time) {
            Result::Ok(out) => out,
            Result::Err(e) => {
                proof {
                    assert(false);
                }
                return Result::Err(e);
            },
        };
        Result::Ok((node_out, link_out))
    }
}

/// A constraint of the declared link type is broken by the would-be `from`
/// or `to` type of a combined vertex-and-edge creation.
pub open spec fn compat_conflict(
    link_ty: CyberlinkState,
    node_type: Seq<char>,
    existing_ty: Seq<char>,
    link_from_new: bool,
) -> bool {
    if link_from_new {
        (link_ty.from@ != "Any"@ && link_ty.from@ != node_type) || (link_ty.to@ != "Any"@
            && link_ty.to@ != existing_ty)
    } else {
        (link_ty.from@ != "Any"@ && link_ty.from@ != existing_ty) || (link_ty.to@ != "Any"@
            && link_ty.to@ != node_type)
    }
}

/// Checks the declared link type's from/to constraints against the type of
/// the node being created and the type of the existing node it is linked
/// with.  `link_from_new` says the edge runs from the new node to the
/// existing one.
pub fn validate_type_compatibility_for_cyberlink2(
    link_type_state: &CyberlinkState,
    node_type: &str,
    existing_node_state: &CyberlinkState,
    link_from_new: bool,
    existing_node_fid: &str,
) -> (r: Result<(), ContractError>)
    ensures
        r is Ok <==> !compat_conflict(
            *link_type_state,
            node_type@,
            existing_node_state.type_@,
            link_from_new,
        ),
        r matches Result::Err(e) ==> e matches ContractError::TypeConflict {
            expected_type,
            expected_from,
            expected_to,
            received_type,
            received_from,
            received_to,
            ..
        } && expected_type@ == link_type_state.type_@ && received_type@
            == link_type_state.type_@ && expected_from@ == link_type_state.from@ && expected_to@
            == link_type_state.to@ && received_from@ == (if link_from_new {
            node_type@
        } else {
            existing_node_state.type_@
        }) && received_to@ == (if link_from_new {
            existing_node_state.type_@
        } else {
            node_type@
        }),
{
    let from_any = crate::text::str_eq(link_type_state.from.as_str(), "Any");
    let to_any = crate::text::str_eq(link_type_state.to.as_str(), "Any");
    if link_from_new {
        if !from_any && !crate::text::str_eq(link_type_state.from.as_str(), node_type) {
            return Result::Err(ContractError::TypeConflict {
                type_: link_type_state.type_.clone(),
                from: String::from_str("<new_node>"),
                to: String::from_str(existing_node_fid),
                expected_type: link_type_state.type_.clone(),
                expected_from: link_type_state.from.clone(),
                expected_to: link_type_state.to.clone(),
                received_type: link_type_state.type_.clone(),
                received_from: String::from_str(node_type),
                received_to: existing_node_state.type_.clone(),
            });
        }
        if !to_any && !crate::text::str_eq(
            link_type_state.to.as_str(),
            existing_node_state.type_.as_str(),
        ) {
            return Result::Err(ContractError::TypeConflict {
                type_: link_type_state.type_.clone(),
                from: String::from_str("<new_node>"),
                to: String::from_str(existing_node_fid),
                expected_type: link_type_state.type_.clone(),
                expected_from: link_type_state.from.clone(),
                expected_to: link_type_state.to.clone(),
                received_type: link_type_state.type_.clone(),
                received_from: String::from_str(node_type),
                received_to: existing_node_state.type_.clone(),
            });
        }
    } else {
        if !from_any && !crate::text::str_eq(
            link_type_state.from.as_str(),
            existing_node_state.type_.as_str(),
        ) {
            return Result::Err(ContractError::TypeConflict {
                type_: link_type_state.type_.clone(),
                from: String::from_str(existing_node_fid),
                to: String::from_str("<new_node>"),
                expected_type: link_type_state.type_.clone(),
                expected_from: link_type_state.from.clone(),
                expected_to: link_type_state.to.clone(),
                received_type: link_type_state.type_.clone(),
                received_from: existing_node_state.type_.clone(),
                received_to: String::from_str(node_type),
            });
        }
        if !to_any && !crate::text::str_eq(link_type_state.to.as_str(), node_type) {
            return Result::Err(ContractError::TypeConflict {
                type_: link_type_state.type_.clone(),
                from: String::from_str(existing_node_fid),
                to: String::from_str("<new_node>"),
                expected_type: link_type_state.type_.clone(),
                expected_from: link_type_state.from.clone(),
                expected_to: link_type_state.to.clone(),
                received_type: link_type_state.type_.clone(),
                received_from: existing_node_state.type_.clone(),
                received_to: String::from_str(node_type),
            });
        }
    }
    Result::Ok(())
}

/// The fields of a record after a value update: the payload and the update
/// stamp change, everything else is immutable.
pub open spec fn updated_fields(
    pre: CyberlinkState,
    post: CyberlinkState,
    value: Option<String>,
    time: u64,
) -> bool {
    &&& post.fid == pre.fid
    &&& post.type_ == pre.type_
    &&& post.from == pre.from
    &&& post.to == pre.to
    &&& post.owner == pre.owner
    &&& post.created_at == pre.created_at
    &&& post.value@ == (match value {
        Option::Some(v) => v@,
        Option::None => Seq::<char>::empty(),
    })
    &&& post.updated_at == Option::Some(time)
}

} // verus!
