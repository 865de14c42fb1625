//! Facts about sequences: what they hold after a push or a concatenation,
//! and when they stay free of duplicates.

use vstd::prelude::*;

verus! {

/// A sequence with a value pushed holds what it held and the value.
pub proof fn lemma_push_contains<T>(s: Seq<T>, x: T, other: T)
    ensures
        s.push(x).contains(other) == (s.contains(other) || other == x),
{
    let pushed = s.push(x);
    if s.contains(other) {
        let i = choose|i: int| 0 <= i < s.len() && s[i] == other;
        assert(pushed[i] == other);
    }
    if other == x {
        assert(pushed[s.len() as int] == other);
    }
    if pushed.contains(other) {
        let i = choose|i: int| 0 <= i < pushed.len() && pushed[i] == other;
        if i < s.len() {
            assert(s[i] == other);
        }
    }
}

/// A concatenation holds what its parts hold.
pub proof fn lemma_concat_contains<T>(a: Seq<T>, b: Seq<T>, x: T)
    ensures
        (a + b).contains(x) == (a.contains(x) || b.contains(x)),
{
    let ab = a + b;
    if a.contains(x) {
        let i = choose|i: int| 0 <= i < a.len() && a[i] == x;
        assert(ab[i] == x);
    }
    if b.contains(x) {
        let i = choose|i: int| 0 <= i < b.len() && b[i] == x;
        assert(ab[a.len() + i] == x);
    }
    if ab.contains(x) {
        let i = choose|i: int| 0 <= i < ab.len() && ab[i] == x;
        if i < a.len() {
            assert(a[i] == x);
        } else {
            assert(b[i - a.len()] == x);
        }
    }
}

/// Appending a value that a sequence lacks keeps it free of duplicates.
pub proof fn lemma_push_fresh<T>(s: Seq<T>, x: T)
    requires
        s.no_duplicates(),
        !s.contains(x),
    ensures
        s.push(x).no_duplicates(),
{
    let pushed = s.push(x);
    assert forall|i: int, j: int| 0 <= i < pushed.len() && 0 <= j < pushed.len() && i != j implies pushed[i]
        != pushed[j] by {
        if i < s.len() && j < s.len() {
        } else if i < s.len() {
            assert(s.contains(pushed[i]));
        } else if j < s.len() {
            assert(s.contains(pushed[j]));
        }
    }
}

/// In a sequence without duplicates, a tail has none either and shares no
/// value with the head before it.
pub proof fn lemma_concat_distinct<T>(a: Seq<T>, b: Seq<T>)
    requires
        (a + b).no_duplicates(),
    ensures
        b.no_duplicates(),
        forall|x: T| b.contains(x) ==> !a.contains(x),
{
    let ab = a + b;
    assert forall|i: int, j: int| 0 <= i < b.len() && 0 <= j < b.len() && i != j implies b[i] != b[j] by {
        assert(ab[a.len() + i] == b[i]);
        assert(ab[a.len() + j] == b[j]);
    }
    assert forall|x: T| b.contains(x) implies !a.contains(x) by {
        let j = choose|j: int| 0 <= j < b.len() && b[j] == x;
        assert(ab[a.len() + j] == x);
        if a.contains(x) {
            let i = choose|i: int| 0 <= i < a.len() && a[i] == x;
            assert(ab[i] == x);
        }
    }
}

/// The parts of a concatenation without duplicates have none and share no
/// value.
pub proof fn lemma_concat_parts<T>(a: Seq<T>, b: Seq<T>)
    requires
        (a + b).no_duplicates(),
    ensures
        a.no_duplicates(),
        b.no_duplicates(),
        forall|x: T| a.contains(x) ==> !b.contains(x),
        forall|x: T| (a + b).contains(x) == (a.contains(x) || b.contains(x)),
{
    let ab = a + b;
    assert forall|i: int, j: int| 0 <= i < a.len() && 0 <= j < a.len() && i != j implies a[i] != a[j] by {
        assert(ab[i] == a[i]);
        assert(ab[j] == a[j]);
    }
    assert forall|i: int, j: int| 0 <= i < b.len() && 0 <= j < b.len() && i != j implies b[i] != b[j] by {
        assert(ab[a.len() + i] == b[i]);
        assert(ab[a.len() + j] == b[j]);
    }
    assert forall|x: T| a.contains(x) implies !b.contains(x) by {
        let i = choose|i: int| 0 <= i < a.len() && a[i] == x;
        assert(ab[i] == x);
        if b.contains(x) {
            let j = choose|j: int| 0 <= j < b.len() && b[j] == x;
            assert(ab[a.len() + j] == x);
        }
    }
    assert forall|x: T| (a + b).contains(x) == (a.contains(x) || b.contains(x)) by {
        if a.contains(x) {
            let i = choose|i: int| 0 <= i < a.len() && a[i] == x;
            assert(ab[i] == x);
        }
        if b.contains(x) {
            let i = choose|i: int| 0 <= i < b.len() && b[i] == x;
            assert(ab[a.len() + i] == x);
        }
        if ab.contains(x) {
            let i = choose|i: int| 0 <= i < ab.len() && ab[i] == x;
            if i < a.len() {
                assert(a[i] == x);
            } else {
                assert(b[i - a.len()] == x);
            }
        }
    }
}

} // verus!
