//! The message surface of the store: the requests a caller can make and the
//! plain data they carry.  Timestamps are nanoseconds since the epoch and
//! identities are plain address strings; the host shell validates and
//! converts them before they reach the store.

use vstd::prelude::*;

verus! {

/// Initial configuration: who administers the store, who may create links,
/// and which bundled semantic cores to load.
pub struct InstantiateMsg {
    pub admins: Vec<String>,
    pub executers: Vec<String>,
    pub semantic_cores: Vec<String>,
}

/// A link as a caller describes it: its type, optional endpoints and an
/// optional payload.  Absent endpoints default to the `"Any"` sentinel.
pub struct Cyberlink {
    pub type_: String,
    pub from: Option<String>,
    pub to: Option<String>,
    pub value: Option<String>,
}

/// A schema-defining link together with its caller-chosen formatted id.
pub struct NamedCyberlink {
    pub id: String,
    pub type_: String,
    pub from: Option<String>,
    pub to: Option<String>,
    pub value: Option<String>,
}

/// Clones an optional string, keeping the value.
pub fn clone_opt_string(o: &Option<String>) -> (r: Option<String>)
    ensures
        r == *o,
{
    match o {
        Option::None => Option::None,
        Option::Some(s) => Option::Some(s.clone()),
    }
}

impl Clone for Cyberlink {
    fn clone(&self) -> (res: Self)
        ensures
            res == *self,
    {
        Cyberlink {
            type_: self.type_.clone(),
            from: clone_opt_string(&self.from),
            to: clone_opt_string(&self.to),
            value: clone_opt_string(&self.value),
        }
    }
}

/// The view of an optional string.
pub open spec fn opt_view(o: Option<String>) -> Option<Seq<char>> {
    match o {
        Option::None => Option::None,
        Option::Some(s) => Option::Some(s@),
    }
}

/// A mutating request.
pub enum ExecuteMsg {
    CreateNamedCyberlink { name: String, cyberlink: Cyberlink },
    CreateCyberlink { cyberlink: Cyberlink },
    CreateCyberlinks { cyberlinks: Vec<Cyberlink> },
    UpdateCyberlink { fid: String, value: Option<String> },
    DeleteCyberlink { fid: String },
    UpdateAdmins { new_admins: Vec<String> },
    UpdateExecutors { new_executors: Vec<String> },
    CreateVertexAndLink {
        vertex_type: String,
        vertex_value: Option<String>,
        link_type: String,
        link_value: Option<String>,
        link_from_existing_id: Option<String>,
        link_to_existing_id: Option<String>,
    },
}

/// A read-only request.
pub enum QueryMsg {
    GetGraphStats { owner: Option<String>, type_: Option<String> },
    Config {},
    DebugState {},
    LastGID {},
    CyberlinkByGID { gid: u64 },
    CyberlinksByGIDs { start_after_gid: Option<u64>, limit: Option<u32> },
    CyberlinksSetByGIDs { gids: Vec<u64> },
    CyberlinkByFID { fid: String },
    CyberlinksByFIDs { start_after_fid: Option<String>, limit: Option<u32> },
    CyberlinksSetByFIDs { fids: Vec<String> },
    CyberlinksByType { type_: String, start_after_gid: Option<u64>, limit: Option<u32> },
    CyberlinksByFrom { from: String, start_after_gid: Option<u64>, limit: Option<u32> },
    CyberlinksByTo { to: String, start_after_gid: Option<u64>, limit: Option<u32> },
    CyberlinksByOwner { owner: String, start_after_gid: Option<u64>, limit: Option<u32> },
    CyberlinksByOwnerTime {
        owner: String,
        start_time: u64,
        end_time: Option<u64>,
        start_after_gid: Option<u64>,
        limit: Option<u32>,
    },
    CyberlinksByOwnerTimeAny {
        owner: String,
        start_time: u64,
        end_time: Option<u64>,
        start_after_gid: Option<u64>,
        limit: Option<u32>,
    },
    CyberlinksByOwnerAndType {
        owner: String,
        type_: String,
        start_after_gid: Option<u64>,
        limit: Option<u32>,
    },
}

/// Aggregate counters for whichever of owner / type the caller asked about;
/// an absent counter reads as `None`, which is equivalent to zero.
pub struct CountsResponse {
    pub owner_count: Option<u64>,
    pub type_count: Option<u64>,
    pub owner_type_count: Option<u64>,
}

} // verus!
