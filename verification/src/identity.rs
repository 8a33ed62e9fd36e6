//! Identities: the texts that name models.

use vstd::prelude::*;

verus! {

/// Whether a character may stand in an identity.
pub open spec fn is_identity_char(ch: char) -> bool {
    ('a' <= ch <= 'z') || ('A' <= ch <= 'Z') || ('0' <= ch <= '9') || ch == '.' || ch == '-' || ch
        == '_'
}

/// Whether a text is an identity: some characters, all of which may stand in one.
pub open spec fn is_identity(text: Seq<char>) -> bool {
    text.len() > 0 && forall|i: int| 0 <= i < text.len() ==> is_identity_char(#[trigger] text[i])
}

/// Whether `ch` may stand in an identity.
pub(crate) fn may_stand(ch: char) -> (answer: bool)
    ensures
        answer == is_identity_char(ch),
{
    ('a' <= ch && ch <= 'z') || ('A' <= ch && ch <= 'Z') || ('0' <= ch && ch <= '9') || ch == '.'
        || ch == '-' || ch == '_'
}

} // verus!
