//! Sets of page numbers, kept as ascending lists.
use vstd::prelude::*;

verus! {

/// Whether `s` grows from each item to the next, so that nothing occurs twice.
pub open spec fn ascending(s: Seq<u32>) -> bool {
    forall|i: int, j: int| 0 <= i < j < s.len() ==> s[i] < s[j]
}

/// Adds `x` to the ascending list `v`, at its place, unless it is there.
pub fn insert_page(v: &mut Vec<u32>, x: u32)
    requires
        ascending(old(v)@),
    ensures
        ascending(final(v)@),
        forall|y: u32| #[trigger] final(v)@.contains(y) <==> old(v)@.contains(y) || y == x,
{
    let mut i: usize = v.len();
    while i > 0 && v[i - 1] >= x
        invariant
            i <= v@.len(),
            v@ == old(v)@,
            ascending(v@),
            forall|k: int| i <= k < v@.len() ==> v@[k] >= x,
        decreases i,
    {
        i = i - 1;
    }
    if i < v.len() && v[i] == x {
        assert(v@.contains(x));
        return;
    }
    let ghost before = v@;
    v.insert(i, x);
    proof {
        assert forall|y: u32| #[trigger] v@.contains(y) <==> before.contains(y) || y == x by {
            if before.contains(y) {
                let k = before.index_of(y);
                if k < i {
                    assert(v@[k] == y);
                } else {
                    assert(v@[k + 1] == y);
                }
            }
            if y == x {
                assert(v@[i as int] == x);
            }
            if v@.contains(y) {
                let k = v@.index_of(y);
                if k < i {
                    assert(before[k] == y);
                } else if k > i {
                    assert(before[k - 1] == y);
                }
            }
        }
    }
}

/// Two ascending lists that hold the same pages are the same list.
pub proof fn ascending_lists_agree(a: Seq<u32>, b: Seq<u32>)
    requires
        ascending(a),
        ascending(b),
        forall|y: u32| #[trigger] a.contains(y) <==> b.contains(y),
    ensures
        a == b,
    decreases a.len(),
{
    if a.len() == 0 {
        if b.len() > 0 {
            assert(b.contains(b[0]));
            assert(a.contains(b[0]));
        }
    } else {
        assert(a.contains(a.last()));
        assert(b.contains(a.last()));
        assert(b.contains(b.last()));
        assert(a.contains(b.last()));
        assert(a.last() == b.last());
        assert forall|y: u32| #[trigger] a.drop_last().contains(y) <==> b.drop_last().contains(y) by {
            if a.drop_last().contains(y) {
                let k = a.drop_last().index_of(y);
                assert(a[k] == y);
                assert(a.contains(y));
                let m = b.index_of(y);
                assert(b.drop_last()[m] == y);
            }
            if b.drop_last().contains(y) {
                let k = b.drop_last().index_of(y);
                assert(b[k] == y);
                assert(b.contains(y));
                assert(a.contains(y));
                let m = a.index_of(y);
                assert(a.drop_last()[m] == y);
            }
        }
        ascending_lists_agree(a.drop_last(), b.drop_last());
        assert(a == a.drop_last().push(a.last()));
        assert(b == b.drop_last().push(b.last()));
    }
}

} // verus!
