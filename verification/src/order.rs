//! The order of packed fields. Records are ordered field by field, and a
//! packed field is ordered byte by byte as it is stored, first byte first:
//! this is the order of the stored bytes, not of the numbers they stand for.

use std::cmp::Ordering;
use vstd::prelude::*;
use vstd::std_specs::cmp::PartialOrdSpec;

verus! {

/// `a` comes before `b`: at the first byte where they differ, `a` has the
/// smaller one.
pub open spec fn bytes_precede(a: [u8; 3], b: [u8; 3]) -> bool {
    a[0] < b[0] || (a[0] == b[0] && (a[1] < b[1] || (a[1] == b[1] && a[2] < b[2])))
}

/// Of two packed fields, either one comes before the other or they are the
/// same, and never two of these at once.
pub proof fn lemma_bytes_total(a: [u8; 3], b: [u8; 3])
    ensures
        bytes_precede(a, b) || a == b || bytes_precede(b, a),
        !(bytes_precede(a, b) && a == b),
        !(bytes_precede(a, b) && bytes_precede(b, a)),
{
}

/// Compares two packed fields byte by byte.
pub fn compare_bytes(a: &[u8; 3], b: &[u8; 3]) -> (r: Ordering)
    ensures
        r == Ordering::Less <==> bytes_precede(*a, *b),
        r == Ordering::Equal <==> *a == *b,
        r == Ordering::Greater <==> bytes_precede(*b, *a),
{
    let mut i: usize = 0;
    while i < 3
        invariant
            i <= 3,
            forall|j: int| 0 <= j < i ==> a[j] == b[j],
        decreases 3 - i,
    {
        if a[i] < b[i] {
            return Ordering::Less;
        }
        if a[i] > b[i] {
            return Ordering::Greater;
        }
        i += 1;
    }
    assert(*a =~= *b);
    Ordering::Equal
}

/// Whether two packed fields hold the same bytes.
pub fn same_bytes(a: &[u8; 3], b: &[u8; 3]) -> (r: bool)
    ensures
        r == (*a == *b),
{
    let r = a[0] == b[0] && a[1] == b[1] && a[2] == b[2];
    proof {
        if r {
            assert(*a =~= *b);
        }
    }
    r
}

/// How two sequences compare in lexicographic order: by the first place in
/// which their items differ, and where one runs out before any differ, the
/// shorter comes first.
pub open spec fn lexicographic<T: PartialOrd>(a: Seq<T>, b: Seq<T>) -> Option<Ordering>
    decreases a.len(),
{
    if a.len() == 0 {
        if b.len() == 0 {
            Some(Ordering::Equal)
        } else {
            Some(Ordering::Less)
        }
    } else if b.len() == 0 {
        Some(Ordering::Greater)
    } else {
        match a[0].partial_cmp_spec(&b[0]) {
            Some(Ordering::Equal) => lexicographic(a.skip(1), b.skip(1)),
            unequal => unequal,
        }
    }
}

/// Where the items compare as equal exactly when they are the same, so do
/// sequences of them.
pub proof fn lemma_lexicographic_equal<T: PartialOrd>(a: Seq<T>, b: Seq<T>)
    requires
        forall|x: T, y: T|
            #![trigger x.partial_cmp_spec(&y)]
            x.partial_cmp_spec(&y) == Some(Ordering::Equal) <==> x == y,
    ensures
        lexicographic(a, b) == Some(Ordering::Equal) <==> a == b,
    decreases a.len(),
{
    if a.len() == 0 || b.len() == 0 {
        if a.len() == 0 && b.len() == 0 {
            assert(a =~= b);
        }
    } else {
        lemma_lexicographic_equal(a.skip(1), b.skip(1));
        if a[0] == b[0] && a.skip(1) == b.skip(1) {
            assert(a =~= seq![a[0]] + a.skip(1));
            assert(b =~= seq![b[0]] + b.skip(1));
        }
    }
}

/// The items of `items` from place `from` on.
pub open spec fn items_from<T>(items: Seq<T>, from: usize) -> Seq<T> {
    items.skip(from as int)
}

/// Compares two vectors in lexicographic order.
pub fn compare_sequences<T: PartialOrd>(a: &Vec<T>, b: &Vec<T>) -> (r: Option<Ordering>)
    requires
        T::obeys_partial_cmp_spec(),
    ensures
        r == lexicographic(a@, b@),
{
    let mut i: usize = 0;
    proof {
        assert(items_from(a@, 0) =~= a@);
        assert(items_from(b@, 0) =~= b@);
    }
    loop
        invariant
            T::obeys_partial_cmp_spec(),
            i <= a@.len(),
            i <= b@.len(),
            lexicographic(a@, b@) == lexicographic(items_from(a@, i), items_from(b@, i)),
        decreases a@.len() - i,
    {
        if i == a.len() {
            if i == b.len() {
                return Some(Ordering::Equal);
            } else {
                return Some(Ordering::Less);
            }
        }
        if i == b.len() {
            return Some(Ordering::Greater);
        }
        proof {
            assert(items_from(a@, i).skip(1) =~= a@.skip(i + 1));
            assert(items_from(b@, i).skip(1) =~= b@.skip(i + 1));
        }
        match a[i].partial_cmp(&b[i]) {
            Some(Ordering::Equal) => {
                i += 1;
            },
            unequal => {
                return unequal;
            },
        }
    }
}

} // verus!
