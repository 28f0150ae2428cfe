//! Searching the values of a header.
use vstd::prelude::*;

use crate::text::{chars_contains, chars_of};

verus! {

/// Whether one of the values contains `target`.
pub open spec fn any_contains(vs: Seq<Seq<char>>, target: Seq<char>) -> bool {
    exists|i: int| 0 <= i < vs.len() && crate::text::contains(#[trigger] vs[i], target)
}

/// Whether some value equals or contains `target`; `false` when there are no values.
pub fn contains(ovs: Option<&Vec<String>>, target: &str) -> (r: bool)
    ensures
        r == (ovs matches Some(vs) && any_contains(vs.deep_view(), target@)),
{
    match ovs {
        Some(vs) => {
            let t = chars_of(target);
            let ghost d = vs.deep_view();
            let mut i: usize = 0;
            while i < vs.len()
                invariant
                    i <= vs.len(),
                    d == vs.deep_view(),
                    d.len() == vs.len(),
                    t@ == target@,
                    ovs == Some(vs),
                    forall|j: int| 0 <= j < i ==> !crate::text::contains(#[trigger] d[j], target@),
                decreases vs.len() - i,
            {
                assert(d[i as int] == vs@[i as int]@);
                let v = chars_of(vs[i].as_str());
                if chars_contains(v.as_slice(), t.as_slice()) {
                    assert(crate::text::contains(d[i as int], target@));
                    return true;
                }
                i += 1;
            }
            false
        },
        None => false,
    }
}

} // verus!
