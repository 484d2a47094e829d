//! Identifiers of messages, and the comparison of such byte strings.

use vstd::prelude::*;

verus! {

/// Identifier of a message. A reply names the message that it answers by it.
#[derive(Clone, Copy, Debug)]
pub struct MessageId {
    pub bytes: [u8; 32],
}

impl View for MessageId {
    type V = Seq<u8>;

    open spec fn view(&self) -> Seq<u8> {
        self.bytes@
    }
}

/// Whether two strings of 32 bytes are the same.
pub fn same_bytes(left: &[u8; 32], right: &[u8; 32]) -> (same: bool)
    ensures
        same == (left@ == right@),
{
    let mut i: usize = 0;
    while i < 32
        invariant
            i <= 32,
            left@.len() == 32,
            right@.len() == 32,
            forall|j: int| 0 <= j < i ==> left@[j] == right@[j],
        decreases 32 - i,
    {
        if left[i] != right[i] {
            return false;
        }
        i += 1;
    }
    assert(left@ =~= right@);
    true
}

/// An identifier is all of its bytes: two are the same if and only if no byte differs.
pub proof fn law_identifier_is_all_of_its_bytes(left: MessageId, right: MessageId)
    ensures
        left@.len() == 32,
        left@ == right@ <==> (forall|i: int| 0 <= i < 32 ==> left.bytes[i] == right.bytes[i]),
{
    if forall|i: int| 0 <= i < 32 ==> left.bytes[i] == right.bytes[i] {
        assert forall|i: int| 0 <= i < 32 implies left@[i] == right@[i] by {
            assert(left.bytes[i] == right.bytes[i]);
        }
        assert(left@ =~= right@);
    }
    if left@ == right@ {
        assert forall|i: int| 0 <= i < 32 implies left.bytes[i] == right.bytes[i] by {
            assert(left@[i] == right@[i]);
        }
    }
}

} // verus!
