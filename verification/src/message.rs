//! The failure texts a generated routine reports, built exactly.
//!
//! The uniform failure format is fixed for compatibility:
//! `Failed trying to convert {subject} to {target}: {detail}`, where the
//! subject is the field or source type concerned and the target is the
//! type converted into. Key and value failures inside a keyed mapping are
//! labelled separately so the two can be told apart.

use vstd::prelude::*;

verus! {

/// The uniform failure text.
pub open spec fn failed_msg(subject: Seq<char>, target: Seq<char>, detail: Seq<char>) -> Seq<char> {
    "Failed trying to convert "@ + subject + " to "@ + target + ": "@ + detail
}

/// The failure text for a mapping key that would not convert.
pub open spec fn key_fail_msg(field: Seq<char>, detail: Seq<char>) -> Seq<char> {
    "Failed to convert key in HashMap "@ + field + ": "@ + detail
}

/// The failure text for a mapping value that would not convert.
pub open spec fn value_fail_msg(field: Seq<char>, detail: Seq<char>) -> Seq<char> {
    "Failed to convert value in HashMap "@ + field + ": "@ + detail
}

/// Builds the uniform failure text.
pub fn failed_message(subject: &str, target: &str, detail: &str) -> (r: String)
    ensures
        r@ == failed_msg(subject@, target@, detail@),
{
    let s = "Failed trying to convert ".to_owned();
    let s = s.concat(subject).concat(" to ").concat(target).concat(": ").concat(detail);
    proof {
        assert(s@ =~= failed_msg(subject@, target@, detail@));
    }
    s
}

/// Builds the mapping-key failure text.
pub fn key_fail_message(field: &str, detail: &str) -> (r: String)
    ensures
        r@ == key_fail_msg(field@, detail@),
{
    let s = "Failed to convert key in HashMap ".to_owned();
    let s = s.concat(field).concat(": ").concat(detail);
    proof {
        assert(s@ =~= key_fail_msg(field@, detail@));
    }
    s
}

/// Builds the mapping-value failure text.
pub fn value_fail_message(field: &str, detail: &str) -> (r: String)
    ensures
        r@ == value_fail_msg(field@, detail@),
{
    let s = "Failed to convert value in HashMap ".to_owned();
    let s = s.concat(field).concat(": ").concat(detail);
    proof {
        assert(s@ =~= value_fail_msg(field@, detail@));
    }
    s
}

} // verus!
