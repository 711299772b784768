//! Bundled schema packs ("semantic cores"): a closed set of named packs,
//! each standing for an ordered list of type definitions.  The pack data
//! itself is supplied by the host shell; the store only resolves pack names
//! and feeds the definitions through the ordinary named-creation path.

use vstd::prelude::*;

verus! {

/// One schema entry of a semantic core: a named type definition fed through
/// the named-creation path at instantiation.
pub struct TypeDefinition {
    pub id: Option<String>,
    pub type_: String,
    pub from: Option<String>,
    pub to: Option<String>,
    pub value: Option<String>,
}

/// The bundled semantic cores.
#[derive(Clone, Copy, Debug)]
pub enum SemanticCore {
    Social,
    Chat,
    Project,
    Deep,
    ChatGPT,
}

/// `a` and `b` are the same character up to ASCII case.
pub open spec fn ascii_case_eq_char(a: char, b: char) -> bool {
    a == b || ('A' <= a && a <= 'Z' && b as int == a as int + 32) || ('A' <= b && b <= 'Z'
        && a as int == b as int + 32)
}

/// `a` and `b` read the same up to ASCII case.
pub open spec fn ascii_case_eq(a: Seq<char>, b: Seq<char>) -> bool {
    a.len() == b.len() && forall|i: int| 0 <= i < a.len() ==> ascii_case_eq_char(a[i], b[i])
}

/// Compares two strings ignoring ASCII case.
pub fn eq_ignore_ascii_case(a: &str, b: &str) -> (r: bool)
    ensures
        r == ascii_case_eq(a@, b@),
{
    let alen: usize = a.unicode_len();
    let blen: usize = b.unicode_len();
    if alen != blen {
        return false;
    }
    let mut i: usize = 0;
    while i < alen
        invariant
            0 <= i <= alen,
            alen == a@.len(),
            alen == b@.len(),
            forall|j: int| 0 <= j < i ==> ascii_case_eq_char(a@[j], b@[j]),
        decreases alen - i,
    {
        let ca = a.get_char(i);
        let cb = b.get_char(i);
        let ca32 = ca as u32;
        let cb32 = cb as u32;
        let same = ca == cb || (65 <= ca32 && ca32 <= 90 && cb32 == ca32 + 32) || (65 <= cb32
            && cb32 <= 90 && ca32 == cb32 + 32);
        if !same {
            return false;
        }
        i = i + 1;
    }
    true
}

impl SemanticCore {
    /// The pack a name resolves to, ignoring ASCII case.
    pub open spec fn spec_from_str(s: Seq<char>) -> Option<SemanticCore> {
        if ascii_case_eq(s, "social"@) {
            Option::Some(SemanticCore::Social)
        } else if ascii_case_eq(s, "chat"@) {
            Option::Some(SemanticCore::Chat)
        } else if ascii_case_eq(s, "project"@) {
            Option::Some(SemanticCore::Project)
        } else if ascii_case_eq(s, "deep"@) {
            Option::Some(SemanticCore::Deep)
        } else if ascii_case_eq(s, "chatgpt"@) {
            Option::Some(SemanticCore::ChatGPT)
        } else {
            Option::None
        }
    }

    /// Resolves a semantic-core name; unknown names resolve to nothing.
    pub fn from_str(s: &str) -> (r: Option<SemanticCore>)
        ensures
            r == Self::spec_from_str(s@),
    {
        if eq_ignore_ascii_case(s, "social") {
            Option::Some(SemanticCore::Social)
        } else if eq_ignore_ascii_case(s, "chat") {
            Option::Some(SemanticCore::Chat)
        } else if eq_ignore_ascii_case(s, "project") {
            Option::Some(SemanticCore::Project)
        } else if eq_ignore_ascii_case(s, "deep") {
            Option::Some(SemanticCore::Deep)
        } else if eq_ignore_ascii_case(s, "chatgpt") {
            Option::Some(SemanticCore::ChatGPT)
        } else {
            Option::None
        }
    }
}

} // verus!
