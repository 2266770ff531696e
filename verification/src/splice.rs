//! Splicing the rendered list into the document: the marker's exact byte
//! span is replaced, every byte outside it is kept, and a single newline is
//! inserted after the list when the following byte is not already one.

use vstd::prelude::*;

use crate::text::{push_all, push_range};

verus! {

/// The newline inserted between the list and the rest of the document:
/// nothing when the remaining content is empty or already starts with one.
pub open spec fn extra_newline(content: Seq<u8>, me: int) -> Seq<u8> {
    if me >= content.len() || content[me] == 10 {
        Seq::empty()
    } else {
        seq![10u8]
    }
}

/// The document with the marker span `[ms, me)` replaced by the rendered
/// list: the bytes before `ms`, the list, the separating newline if one is
/// needed, and the bytes from `me` on.
pub open spec fn splice(content: Seq<u8>, toc: Seq<u8>, ms: int, me: int) -> Seq<u8> {
    content.subrange(0, ms) + toc + extra_newline(content, me) + content.subrange(
        me,
        content.len() as int,
    )
}

pub(crate) fn splice_exec(content: &Vec<u8>, toc: &Vec<u8>, ms: usize, me: usize) -> (r: Vec<u8>)
    requires
        ms <= content@.len(),
        me <= content@.len(),
    ensures
        r@ == splice(content@, toc@, ms as int, me as int),
{
    let mut out: Vec<u8> = Vec::new();
    push_range(&mut out, content, 0, ms);
    push_all(&mut out, toc.as_slice());
    if me < content.len() && content[me] != 10 {
        out.push(10);
    }
    push_range(&mut out, content, me, content.len());
    proof {
        assert(out@ =~= splice(content@, toc@, ms as int, me as int));
    }
    out
}

} // verus!
