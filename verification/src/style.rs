//! Style of a set of objects: a value on which all agree, or none.

use vstd::prelude::*;

verus! {

/// The value that every element holds, if the sequence is not empty, every
/// element is known and all are equal; otherwise none.
pub open spec fn unanimous<V>(s: Seq<Option<V>>) -> Option<V> {
    if s.len() > 0 && s[0] is Some && (forall|i: int| 0 <= i < s.len() ==> #[trigger] s[i] == s[0]) {
        s[0]
    } else {
        None
    }
}

/// Every element is known.
pub open spec fn all_known(s: Seq<Option<u64>>) -> bool {
    forall|i: int| 0 <= i < s.len() ==> (#[trigger] s[i]) is Some
}

/// The sum of the known elements.
pub open spec fn total(s: Seq<Option<u64>>) -> nat
    decreases s.len(),
{
    if s.len() == 0 {
        0
    } else {
        total(s.drop_last()) + match s.last() {
            Some(v) => v as nat,
            None => 0,
        }
    }
}

/// The arithmetic mean, rounded down, if the sequence is not empty and every
/// element is known; otherwise none.
pub open spec fn mean_of(s: Seq<Option<u64>>) -> Option<u64> {
    if s.len() > 0 && all_known(s) {
        Some((total(s) / s.len()) as u64)
    } else {
        None
    }
}

/// The font size on which all agree.
pub fn common_size(values: &Vec<Option<u64>>) -> (r: Option<u64>)
    ensures
        r == unanimous(values@),
{
    if values.len() == 0 {
        return None;
    }
    let first: u64 = match values[0] {
        Some(v) => v,
        None => {
            return None;
        },
    };
    let mut i: usize = 1;
    while i < values.len()
        invariant
            1 <= i <= values.len(),
            values[0] == Some(first),
            forall|j: int| 0 <= j < i ==> #[trigger] values[j] == values[0],
        decreases values.len() - i,
    {
        match values[i] {
            Some(v) => {
                if v != first {
                    return None;
                }
            },
            None => {
                return None;
            },
        }
        i += 1;
    }
    Some(first)
}

/// The flag on which all agree.
pub fn common_flag(values: &Vec<Option<bool>>) -> (r: Option<bool>)
    ensures
        r == unanimous(values@),
{
    if values.len() == 0 {
        return None;
    }
    let first: bool = match values[0] {
        Some(v) => v,
        None => {
            return None;
        },
    };
    let mut i: usize = 1;
    while i < values.len()
        invariant
            1 <= i <= values.len(),
            values[0] == Some(first),
            forall|j: int| 0 <= j < i ==> #[trigger] values[j] == values[0],
        decreases values.len() - i,
    {
        match values[i] {
            Some(v) => {
                if v != first {
                    return None;
                }
            },
            None => {
                return None;
            },
        }
        i += 1;
    }
    Some(first)
}

/// The mean font size, rounded down.
pub fn mean_size(values: &Vec<Option<u64>>) -> (r: Option<u64>)
    ensures
        r == mean_of(values@),
{
    if values.len() == 0 {
        return None;
    }
    let mut sum: u128 = 0;
    let mut i: usize = 0;
    proof {
        assert(values@.take(0).len() == 0);
    }
    while i < values.len()
        invariant
            i <= values.len(),
            sum == total(values@.take(i as int)),
            sum <= i * 0xffff_ffff_ffff_ffff,
            forall|j: int| 0 <= j < i ==> (#[trigger] values[j]) is Some,
        decreases values.len() - i,
    {
        proof {
            assert(values@.take(i + 1).drop_last() =~= values@.take(i as int));
            assert(values@.take(i + 1).last() == values[i as int]);
        }
        match values[i] {
            Some(v) => {
                sum = sum + (v as u128);
            },
            None => {
                return None;
            },
        }
        i += 1;
    }
    let count: u128 = values.len() as u128;
    proof {
        assert(values@.take(i as int) =~= values@);
        assert(sum / count <= 0xffff_ffff_ffff_ffff) by (nonlinear_arith)
            requires
                sum <= count * 0xffff_ffff_ffff_ffff,
                count > 0,
        ;
    }
    Some((sum / count) as u64)
}

/// A set whose members all hold one known value has that value; a set with a
/// member that holds another value, or none, has no value.
pub proof fn lemma_unanimous<V>(s: Seq<Option<V>>, v: V)
    ensures
        (s.len() > 0 && forall|i: int| 0 <= i < s.len() ==> #[trigger] s[i] == Some(v)) ==> unanimous(s)
            == Some(v),
        (exists|i: int| 0 <= i < s.len() && #[trigger] s[i] != Some(v)) ==> unanimous(s) != Some(v),
{
    if s.len() > 0 && forall|i: int| 0 <= i < s.len() ==> #[trigger] s[i] == Some(v) {
        assert(s[0] == Some(v));
    }
}

/// An empty set has no common value and no mean.
pub proof fn lemma_empty_style<V>()
    ensures
        unanimous(Seq::<Option<V>>::empty()) is None,
        mean_of(Seq::<Option<u64>>::empty()) is None,
{
}

} // verus!
