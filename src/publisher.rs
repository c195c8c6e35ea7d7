use vstd::prelude::*;
use crate::text::same_text;

verus! {

/// Layout of the keys under which the agent publishes in xenstore.
#[derive(Clone, Copy, Debug, PartialEq, Eq, Structural)]
pub enum SchemaKind {
    /// The layout that existing guest tools use, with address slots.
    Std,
    /// The layout proposed for newer toolstacks, keyed by address.
    Rfc,
}

pub open spec fn std_name() -> Seq<char> {
    seq!['s', 't', 'd']
}

pub open spec fn rfc_name() -> Seq<char> {
    seq!['r', 'f', 'c']
}

/// The schema that a configuration name selects, if it names one.
pub fn schema_from_name(name: &str) -> (r: Option<SchemaKind>)
    ensures
        r == (if name@ == std_name() {
            Some(SchemaKind::Std)
        } else if name@ == rfc_name() {
            Some(SchemaKind::Rfc)
        } else {
            None
        }),
{
    let std_schema = "std";
    let rfc_schema = "rfc";
    proof {
        reveal_strlit("std");
        reveal_strlit("rfc");
    }
    assert(std_schema@ =~= std_name());
    assert(rfc_schema@ =~= rfc_name());
    if same_text(name, std_schema) {
        Some(SchemaKind::Std)
    } else if same_text(name, rfc_schema) {
        Some(SchemaKind::Rfc)
    } else {
        None
    }
}

} // verus!
