//! The store's entry points: instantiation with its two bootstrap links and
//! bulk schema loading, and the dispatch of mutating requests.

use vstd::prelude::*;
use crate::error::ContractError;
use crate::execute::created_effect;
use crate::model::{count_by, key_has, key_val, lemma_gid_idx_is};
use crate::msg::{Cyberlink, ExecuteMsg, InstantiateMsg};
use crate::semcores::TypeDefinition;
use crate::state::{Config, GraphStore};
use crate::text::no_colon;

verus! {

/// What a mutating request reports back on success.
pub enum ExecuteOutcome {
    Created { gid: u64, fid: String },
    CreatedBatch { results: Vec<Result<(u64, String), ContractError>> },
    CreatedVertexAndLink { node_gid: u64, node_fid: String, link_gid: u64, link_fid: String },
    Updated { gid: u64 },
    Deleted { gid: u64 },
    AdminsUpdated {},
    ExecutorsUpdated {},
}

/// How many numeric ids a request can consume.
pub open spec fn creation_bound(msg: ExecuteMsg) -> int {
    match msg {
        ExecuteMsg::CreateNamedCyberlink { .. } => 1,
        ExecuteMsg::CreateCyberlink { .. } => 1,
        ExecuteMsg::CreateCyberlinks { cyberlinks } => cyberlinks@.len() as int,
        ExecuteMsg::CreateVertexAndLink { .. } => 2,
        ExecuteMsg::UpdateCyberlink { .. } => 0,
        ExecuteMsg::DeleteCyberlink { .. } => 0,
        ExecuteMsg::UpdateAdmins { .. } => 0,
        ExecuteMsg::UpdateExecutors { .. } => 0,
    }
}

/// The definition carries an id, so the loader will try to create it.
pub open spec fn def_named_pred() -> spec_fn(TypeDefinition) -> bool {
    |d: TypeDefinition| d.id is Some
}

/// What the loader does with one definition at its turn: one without an id
/// is skipped; one whose id is colon-free, fresh, and whose candidate link
/// validates against the store as it then stands is created there under
/// that name; any other leaves the store untouched and costs one reported
/// error.
pub open spec fn load_step(
    pre: GraphStore,
    def: TypeDefinition,
    sender: Seq<char>,
    time: u64,
    post: GraphStore,
) -> bool {
    match def.id {
        Option::None => pre.same_state(post),
        Option::Some(idname) => {
            let c = Cyberlink { type_: def.type_, from: def.from, to: def.to, value: def.value };
            if no_colon(idname@) && pre.validate_ok(c) && !key_has(pre.names@, idname@) {
                created_effect(pre, post, idname@, (pre.last_gid + 1) as u64, c, sender, time)
                    && post.type_seqs@ == pre.type_seqs@
            } else {
                pre.same_state(post)
            }
        },
    }
}

/// A whole bulk load, definition by definition.
pub open spec fn load_trace(
    defs: Seq<TypeDefinition>,
    sender: Seq<char>,
    time: u64,
    steps: Seq<GraphStore>,
) -> bool {
    &&& steps.len() == defs.len() + 1
    &&& forall|i: int|
        0 <= i < defs.len() ==> #[trigger] load_step(steps[i], defs[i], sender, time, steps[i + 1])
}

/// The store right after instantiation's two bootstrap links, before any
/// semantic core is loaded.
pub open spec fn bootstrapped(
    s: GraphStore,
    msg: InstantiateMsg,
    sender: Seq<char>,
    time: u64,
) -> bool {
    &&& s.wf()
    &&& s.config.admins@ == msg.admins@
    &&& s.config.executors@ == msg.executers@
    &&& s.last_gid == 2
    &&& s.links@.len() == 2
    &&& s.deleted@.len() == 0
    &&& s.type_seqs@.len() == 0
    &&& forall|k: Seq<char>| #[trigger] key_has(s.names@, k) <==> (k == "Type"@ || k == "Any"@)
    &&& s.name_live("Type"@)
    &&& key_val(s.names@, "Type"@) == 1
    &&& s.name_live("Any"@)
    &&& key_val(s.names@, "Any"@) == 2
    &&& s.named_link("Type"@).type_@ == "Type"@
    &&& s.named_link("Type"@).from@ == "Any"@
    &&& s.named_link("Type"@).to@ == "Any"@
    &&& s.named_link("Type"@).owner@ == sender
    &&& s.named_link("Type"@).created_at == time
    &&& s.named_link("Type"@).updated_at is None
    &&& s.named_link("Type"@).value@ == Seq::<char>::empty()
    &&& s.named_link("Any"@).type_@ == "Type"@
    &&& s.named_link("Any"@).from@ == "Null"@
    &&& s.named_link("Any"@).to@ == "Null"@
    &&& s.named_link("Any"@).owner@ == sender
    &&& s.named_link("Any"@).created_at == time
    &&& s.named_link("Any"@).updated_at is None
    &&& s.named_link("Any"@).value@ == Seq::<char>::empty()
}

impl GraphStore {
    /// Feeds an ordered list of schema definitions one by one through the
    /// same named-creation path ordinary callers use; entries without an id
    /// are skipped, and failures are collected per item without disturbing
    /// the rest.
    pub fn load_type_definitions(
        &mut self,
        defs: Vec<TypeDefinition>,
        sender: &str,
        time: u64,
    ) -> (errs: Vec<ContractError>)
        requires
            old(self).wf(),
            old(self).last_gid + defs@.len() <= u64::MAX,
        ensures
            final(self).wf(),
            final(self).config == old(self).config,
            final(self).deleted@ == old(self).deleted@,
            final(self).last_gid <= old(self).last_gid + defs@.len(),
            final(self).links@.len() >= old(self).links@.len(),
            forall|i: int|
                0 <= i < old(self).links@.len() ==> #[trigger] final(self).links@[i] == old(
                    self,
                ).links@[i],
            forall|k: Seq<char>| key_has(old(self).names@, k) ==> #[trigger] key_has(
                final(self).names@,
                k,
            ),
            forall|k: Seq<char>|
                key_has(old(self).names@, k) ==> #[trigger] key_val(final(self).names@, k)
                    == key_val(old(self).names@, k),
            exists|steps: Seq<GraphStore>|
                #[trigger] load_trace(defs@, sender@, time, steps) && steps[0] == *old(self)
                    && steps[defs@.len() as int] == *final(self),
            errs@.len() + final(self).last_gid - old(self).last_gid == count_by(
                defs@,
                def_named_pred(),
            ),
            defs@.len() == 0 ==> old(self).same_state(*final(self)) && errs@.len() == 0,
    {
        let ghost s0 = *old(self);
        let mut errors: Vec<ContractError> = Vec::new();
        let n: usize = defs.len();
        let mut i: usize = 0;
        let mut rest = defs;
        let ghost items = rest@;
        let ghost mut steps: Seq<GraphStore> = seq![*old(self)];
        let mut created: u64 = 0;
        proof {
            assert(rest@ =~= items.skip(0));
        }
        while i < n
            invariant
                0 <= i <= n,
                n == items.len(),
                rest@ == items.skip(i as int),
                self.wf(),
                self.config == s0.config,
                self.deleted@ == s0.deleted@,
                created <= i,
                self.last_gid == s0.last_gid + created,
                s0.last_gid + n <= u64::MAX,
                steps.len() == i + 1,
                steps[0] == s0,
                steps[i as int] == *self,
                forall|j: int|
                    0 <= j < i ==> #[trigger] load_step(
                        steps[j],
                        items[j],
                        sender@,
                        time,
                        steps[j + 1],
                    ),
                errors@.len() + created == count_by(items.take(i as int), def_named_pred()),
                self.links@.len() >= s0.links@.len(),
                forall|j: int|
                    0 <= j < s0.links@.len() ==> #[trigger] self.links@[j] == s0.links@[j],
                forall|k: Seq<char>|
                    key_has(s0.names@, k) ==> #[trigger] key_has(self.names@, k),
                forall|k: Seq<char>|
                    key_has(s0.names@, k) ==> #[trigger] key_val(self.names@, k) == key_val(
                        s0.names@,
                        k,
                    ),
                i == 0 ==> *self == s0 && errors@.len() == 0,
            decreases n - i,
        {
            let ghost pre = *self;
            let def = rest.remove(0);
            proof {
                assert(items.skip(i as int)[0] == items[i as int]);
                assert(def == items[i as int]);
                assert(rest@ =~= items.skip(i + 1));
                assert(items.take(i + 1).drop_last() =~= items.take(i as int));
                assert(items.take(i + 1).last() == items[i as int]);
            }
            match def.id {
                Option::None => {},
                Option::Some(id) => {
                    if crate::text::contains_colon(id.as_str()) {
                        errors.push(ContractError::InvalidNameFormat { name: id });
                    } else {
                        let candidate = Cyberlink {
                            type_: def.type_,
                            from: def.from,
                            to: def.to,
                            value: def.value,
                        };
                        proof {
                            assert(candidate == Cyberlink {
                                type_: items[i as int].type_,
                                from: items[i as int].from,
                                to: items[i as int].to,
                                value: items[i as int].value,
                            });
                        }
                        match self.validate_cyberlink(&candidate) {
                            Result::Err(e) => {
                                errors.push(e);
                            },
                            Result::Ok(u) => {
                                let res = self.create_cyberlink(
                                    Option::Some(id),
                                    candidate,
                                    sender,
                                    time,
                                );
                                match res {
                                    Result::Ok(out) => {
                                        created = created + 1;
                                        proof {
                                            assert((pre.last_gid + 1) as u64 == out.0);
                                        }
                                    },
                                    Result::Err(e) => {
                                        errors.push(e);
                                    },
                                }
                            },
                        }
                    }
                },
            }
            proof {
                steps = steps.push(*self);
                assert(steps[i + 1] == *self);
                assert(load_step(pre, items[i as int], sender@, time, steps[i + 1]));
            }
            i = i + 1;
        }
        proof {
            assert(items == defs@);
            assert(items.take(n as int) =~= items);
            assert(load_trace(defs@, sender@, time, steps));
        }
        errors
    }

    /// Sets up a fresh store: the capability configuration, the two
    /// bootstrap links `"Type"` (a self-describing type, endpoints `"Any"`)
    /// and `"Any"` (of type `"Type"`, endpoints `"Null"`), and then the
    /// supplied semantic-core definitions, whose per-item failures are
    /// returned.
    pub fn instantiate(
        msg: InstantiateMsg,
        core_defs: Vec<TypeDefinition>,
        sender: &str,
        time: u64,
    ) -> (r: (GraphStore, Vec<ContractError>))
        requires
            core_defs@.len() + 2 <= u64::MAX,
        ensures
            r.0.wf(),
            r.0.config.admins@ == msg.admins@,
            r.0.config.executors@ == msg.executers@,
            r.0.name_live("Type"@),
            key_val(r.0.names@, "Type"@) == 1,
            r.0.name_live("Any"@),
            key_val(r.0.names@, "Any"@) == 2,
            r.0.named_link("Type"@).type_@ == "Type"@,
            r.0.named_link("Type"@).from@ == "Any"@,
            r.0.named_link("Type"@).to@ == "Any"@,
            r.0.named_link("Type"@).owner@ == sender@,
            r.0.named_link("Any"@).type_@ == "Type"@,
            r.0.named_link("Any"@).from@ == "Null"@,
            r.0.named_link("Any"@).to@ == "Null"@,
            r.0.named_link("Type"@).created_at == time,
            r.0.named_link("Type"@).updated_at is None,
            r.0.named_link("Type"@).value@ == Seq::<char>::empty(),
            r.0.named_link("Any"@).created_at == time,
            r.0.named_link("Any"@).updated_at is None,
            r.0.named_link("Any"@).value@ == Seq::<char>::empty(),
            r.0.named_link("Any"@).owner@ == sender@,
            r.0.last_gid >= 2,
            r.0.last_gid <= 2 + core_defs@.len(),
            exists|mid: GraphStore, steps: Seq<GraphStore>|
                #![trigger load_trace(core_defs@, sender@, time, steps), bootstrapped(
                    mid,
                    msg,
                    sender@,
                    time,
                )]
                load_trace(core_defs@, sender@, time, steps) && bootstrapped(
                    mid,
                    msg,
                    sender@,
                    time,
                ) && steps[0] == mid && steps[core_defs@.len() as int] == r.0,
            r.1@.len() + r.0.last_gid - 2 == count_by(core_defs@, def_named_pred()),
            core_defs@.len() == 0 ==> bootstrapped(r.0, msg, sender@, time) && r.1@.len() == 0,
    {
        let config = Config { admins: msg.admins, executors: msg.executers };
        let mut store = GraphStore::empty(config);
        proof {
            reveal_strlit("Type");
            reveal_strlit("Any");
            reveal_strlit("Null");
            assert(no_colon("Type"@));
            assert(no_colon("Any"@));
            assert("Type"@ != "Any"@);
        }
        let r1 = store.create_cyberlink(
            Option::Some(String::from_str("Type")),
            Cyberlink {
                type_: String::from_str("Type"),
                from: Option::Some(String::from_str("Any")),
                to: Option::Some(String::from_str("Any")),
                value: Option::None,
            },
            sender,
            time,
        );
        proof {
            assert(r1 is Ok);
        }
        let ghost st1 = *&store;
        let r2 = store.create_cyberlink(
            Option::Some(String::from_str("Any")),
            Cyberlink {
                type_: String::from_str("Type"),
                from: Option::Some(String::from_str("Null")),
                to: Option::Some(String::from_str("Null")),
                value: Option::None,
            },
            sender,
            time,
        );
        let ghost s2 = *&store;
        proof {
            assert(r2 is Ok);
            assert(s2.links@[0] == st1.links@[0]);
            lemma_gid_idx_is(s2.links@, 0);
            lemma_gid_idx_is(s2.links@, 1);
            assert(key_val(s2.names@, "Type"@) == 1);
            assert(key_val(s2.names@, "Any"@) == 2);
            assert forall|k: Seq<char>| #[trigger] key_has(s2.names@, k) <==> (k == "Type"@ || k
                == "Any"@) by {
                if k != "Type"@ && k != "Any"@ {
                    assert(key_has(s2.names@, k) == key_has(st1.names@, k));
                    assert(key_has(st1.names@, k) == false) by {
                        if key_has(st1.names@, k) {
                        }
                    }
                }
            }
            assert(bootstrapped(s2, msg, sender@, time));
        }
        let errs = store.load_type_definitions(core_defs, sender, time);
        proof {
            let s3 = *&store;
            assert(s3.links@[0] == s2.links@[0]);
            assert(s3.links@[1] == s2.links@[1]);
            lemma_gid_idx_is(s3.links@, 0);
            lemma_gid_idx_is(s3.links@, 1);
            assert(key_val(s3.names@, "Type"@) == 1);
            assert(key_val(s3.names@, "Any"@) == 2);
            let steps = choose|st: Seq<GraphStore>|
                load_trace(core_defs@, sender@, time, st) && st[0] == s2 && st[core_defs@.len() as int]
                    == s3;
            assert(load_trace(core_defs@, sender@, time, steps) && steps[0] == s2
                && steps[core_defs@.len() as int] == s3);
            if core_defs@.len() == 0 {
                assert(s3 == s2);
                assert(bootstrapped(s3, msg, sender@, time));
            }
        }
        (store, errs)
    }

    /// Applies one mutating request by forwarding it to the operation of
    /// the same name; the operations' own contracts state the error cases
    /// in detail.
    pub fn execute(&mut self, sender: &str, time: u64, msg: ExecuteMsg) -> (r: Result<
        ExecuteOutcome,
        ContractError,
    >)
        requires
            old(self).wf(),
            old(self).last_gid + creation_bound(msg) <= u64::MAX,
        ensures
            final(self).wf(),
            !(msg matches ExecuteMsg::UpdateAdmins { .. } || msg
                matches ExecuteMsg::UpdateExecutors { .. }) ==> final(self).config == old(
                self,
            ).config,
            match msg {
                ExecuteMsg::CreateNamedCyberlink { name, cyberlink } => match r {
                    Result::Ok(o) => {
                        &&& o matches ExecuteOutcome::Created { gid, fid } && fid@ == name@
                            && crate::execute::created_effect(
                            *old(self),
                            *final(self),
                            name@,
                            gid,
                            cyberlink,
                            sender@,
                            time,
                        )
                        &&& old(self).config.spec_can_modify(sender@)
                        &&& crate::text::no_colon(name@)
                        &&& old(self).validate_ok(cyberlink)
                        &&& final(self).type_seqs@ == old(self).type_seqs@
                    },
                    Result::Err(e) => old(self).same_state(*final(self)) && old(
                        self,
                    ).create_named_err_matches(sender@, name@, cyberlink, e),
                },
                ExecuteMsg::CreateCyberlink { cyberlink } => match r {
                    Result::Ok(o) => {
                        &&& o matches ExecuteOutcome::Created { gid, fid } && fid@
                            == crate::text::auto_fid(
                            cyberlink.type_@,
                            (crate::model::map_val(old(self).type_seqs@, cyberlink.type_@)
                                + 1) as nat,
                        ) && crate::execute::created_effect(
                            *old(self),
                            *final(self),
                            fid@,
                            gid,
                            cyberlink,
                            sender@,
                            time,
                        )
                        &&& old(self).config.spec_can_execute(sender@)
                        &&& old(self).validate_ok(cyberlink)
                    },
                    Result::Err(e) => old(self).same_state(*final(self)) && old(
                        self,
                    ).create_auto_err_matches(sender@, cyberlink, e),
                },
                ExecuteMsg::CreateCyberlinks { cyberlinks } => match r {
                    Result::Ok(o) => {
                        &&& o matches ExecuteOutcome::CreatedBatch { results } && results@.len()
                            == cyberlinks@.len() && (exists|steps: Seq<GraphStore>|
                        #[trigger] crate::execute::batch_trace(
                            cyberlinks@,
                            sender@,
                            time,
                            steps,
                            results@,
                        ) && steps[0] == *old(self)
                            && steps[cyberlinks@.len() as int] == *final(self))
                        &&& old(self).config.spec_can_execute(sender@)
                        &&& final(self).deleted@ == old(self).deleted@
                    },
                    Result::Err(e) => old(self).same_state(*final(self)) && !old(
                        self,
                    ).config.spec_can_execute(sender@) && e
                        matches ContractError::Unauthorized {  },
                },
                ExecuteMsg::UpdateCyberlink { fid, value } => match r {
                    Result::Ok(o) => {
                        &&& o matches ExecuteOutcome::Updated { gid } && key_val(
                            old(self).names@,
                            fid@,
                        ) == gid && !old(self).is_deleted(gid) && final(self).is_live(gid)
                            && crate::execute::updated_fields(
                            old(self).live_link(gid),
                            final(self).live_link(gid),
                            value,
                            time,
                        )
                        &&& key_has(old(self).names@, fid@)
                        &&& final(self).names@ == old(self).names@
                        &&& final(self).deleted@ == old(self).deleted@
                        &&& final(self).last_gid == old(self).last_gid
                    },
                    Result::Err(e) => old(self).same_state(*final(self)) && old(
                        self,
                    ).touch_err_matches(sender@, fid@, e),
                },
                ExecuteMsg::DeleteCyberlink { fid } => match r {
                    Result::Ok(o) => {
                        &&& o matches ExecuteOutcome::Deleted { gid } && key_val(
                            old(self).names@,
                            fid@,
                        ) == gid && final(self).deleted@ == old(self).deleted@.push(gid)
                            && final(self).is_deleted(gid) && !final(self).is_live(gid)
                        &&& key_has(old(self).names@, fid@)
                        &&& final(self).names@ == old(self).names@
                        &&& final(self).last_gid == old(self).last_gid
                    },
                    Result::Err(e) => old(self).same_state(*final(self)) && old(
                        self,
                    ).touch_err_matches(sender@, fid@, e),
                },
                ExecuteMsg::UpdateAdmins { new_admins } => match r {
                    Result::Ok(o) => {
                        &&& o matches ExecuteOutcome::AdminsUpdated {  }
                        &&& old(self).config.spec_is_admin(sender@)
                        &&& final(self).config.admins@ == new_admins@
                        &&& final(self).config.executors@ == old(self).config.executors@
                        &&& old(self).same_store(*final(self))
                    },
                    Result::Err(e) => old(self).same_state(*final(self)) && !old(
                        self,
                    ).config.spec_is_admin(sender@) && e matches ContractError::Unauthorized {  },
                },
                ExecuteMsg::UpdateExecutors { new_executors } => match r {
                    Result::Ok(o) => {
                        &&& o matches ExecuteOutcome::ExecutorsUpdated {  }
                        &&& old(self).config.spec_is_admin(sender@)
                        &&& final(self).config.executors@ == new_executors@
                        &&& final(self).config.admins@ == old(self).config.admins@
                        &&& old(self).same_store(*final(self))
                    },
                    Result::Err(e) => old(self).same_state(*final(self)) && !old(
                        self,
                    ).config.spec_is_admin(sender@) && e matches ContractError::Unauthorized {  },
                },
                ExecuteMsg::CreateVertexAndLink {
                    vertex_type,
                    link_type,
                    link_from_existing_id,
                    link_to_existing_id,
                    ..
                } => match r {
                    Result::Ok(o) => {
                        &&& o matches ExecuteOutcome::CreatedVertexAndLink {
                            node_gid,
                            link_gid,
                            ..
                        } && node_gid == old(self).last_gid + 1 && link_gid == old(self).last_gid
                            + 2
                        &&& final(self).last_gid == old(self).last_gid + 2
                        &&& final(self).links@.len() == old(self).links@.len() + 2
                        &&& final(self).deleted@ == old(self).deleted@
                        &&& old(self).config.spec_can_execute(sender@)
                    },
                    Result::Err(e) => old(self).same_state(*final(self)) && old(
                        self,
                    ).vertex_link_err_matches(
                        sender@,
                        vertex_type@,
                        link_type@,
                        link_from_existing_id,
                        link_to_existing_id,
                        e,
                    ),
                },
            },
    {
        match msg {
            ExecuteMsg::CreateNamedCyberlink { name, cyberlink } => {
                match self.execute_create_named_cyberlink(sender, time, name, cyberlink) {
                    Result::Ok(out) => Result::Ok(
                        ExecuteOutcome::Created { gid: out.0, fid: out.1 },
                    ),
                    Result::Err(e) => Result::Err(e),
                }
            },
            ExecuteMsg::CreateCyberlink { cyberlink } => {
                match self.execute_create_cyberlink(sender, time, cyberlink) {
                    Result::Ok(out) => Result::Ok(
                        ExecuteOutcome::Created { gid: out.0, fid: out.1 },
                    ),
                    Result::Err(e) => Result::Err(e),
                }
            },
            ExecuteMsg::CreateCyberlinks { cyberlinks } => {
                match self.execute_create_cyberlinks(sender, time, cyberlinks) {
                    Result::Ok(out) => Result::Ok(ExecuteOutcome::CreatedBatch { results: out }),
                    Result::Err(e) => Result::Err(e),
                }
            },
            ExecuteMsg::UpdateCyberlink { fid, value } => {
                match self.execute_update_cyberlink(sender, time, fid, value) {
                    Result::Ok(gid) => Result::Ok(ExecuteOutcome::Updated { gid }),
                    Result::Err(e) => Result::Err(e),
                }
            },
            ExecuteMsg::DeleteCyberlink { fid } => {
                match self.execute_delete_cyberlink(sender, fid) {
                    Result::Ok(gid) => Result::Ok(ExecuteOutcome::Deleted { gid }),
                    Result::Err(e) => Result::Err(e),
                }
            },
            ExecuteMsg::UpdateAdmins { new_admins } => {
                match self.execute_update_admins(sender, new_admins) {
                    Result::Ok(u) => Result::Ok(ExecuteOutcome::AdminsUpdated {  }),
                    Result::Err(e) => Result::Err(e),
                }
            },
            ExecuteMsg::UpdateExecutors { new_executors } => {
                match self.execute_update_executors(sender, new_executors) {
                    Result::Ok(u) => Result::Ok(ExecuteOutcome::ExecutorsUpdated {  }),
                    Result::Err(e) => Result::Err(e),
                }
            },
            ExecuteMsg::CreateVertexAndLink {
                vertex_type,
                vertex_value,
                link_type,
                link_value,
                link_from_existing_id,
                link_to_existing_id,
            } => {
                match self.execute_create_cyberlink2(
                    sender,
                    time,
                    vertex_type,
                    vertex_value,
                    link_type,
                    link_value,
                    link_from_existing_id,
                    link_to_existing_id,
                ) {
                    Result::Ok(out) => Result::Ok(
                        ExecuteOutcome::CreatedVertexAndLink {
                            node_gid: out.0.0,
                            node_fid: out.0.1,
                            link_gid: out.1.0,
                            link_fid: out.1.1,
                        },
                    ),
                    Result::Err(e) => Result::Err(e),
                }
            },
        }
    }
}

} // verus!
