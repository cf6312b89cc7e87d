//! Byte strings: their order, and sets of them.
use vstd::prelude::*;

verus! {

/// Whether `a` comes before `b`: at the first place where they differ it has the
/// smaller byte, or it ends first.
pub open spec fn less(a: Seq<u8>, b: Seq<u8>) -> bool
    decreases a.len(),
{
    if b.len() == 0 {
        false
    } else if a.len() == 0 {
        true
    } else {
        a[0] < b[0] || (a[0] == b[0] && less(a.drop_first(), b.drop_first()))
    }
}

/// Nothing comes before itself, and of two byte strings that differ one comes
/// before the other.
pub proof fn lemma_less_total(a: Seq<u8>, b: Seq<u8>)
    ensures
        less(a, b) ==> !less(b, a) && a != b,
        a == b || less(a, b) || less(b, a),
    decreases a.len(),
{
    if a.len() == 0 {
        assert(b.len() == 0 ==> a =~= b);
    } else if b.len() > 0 {
        lemma_less_total(a.drop_first(), b.drop_first());
        if a[0] == b[0] && a.drop_first() == b.drop_first() {
            assert(a =~= seq![a[0]] + a.drop_first());
            assert(b =~= seq![b[0]] + b.drop_first());
        }
    }
}

/// What comes before something comes before what that comes before.
pub proof fn lemma_less_transitive(a: Seq<u8>, b: Seq<u8>, c: Seq<u8>)
    requires
        less(a, b),
        less(b, c),
    ensures
        less(a, c),
    decreases a.len(),
{
    if a.len() > 0 && b.len() > 0 && c.len() > 0 && a[0] == b[0] && b[0] == c[0] {
        lemma_less_transitive(a.drop_first(), b.drop_first(), c.drop_first());
    }
}

/// Whether two byte strings are the same.
pub fn same_bytes(a: &[u8], b: &[u8]) -> (same: bool)
    ensures
        same == (a@ == b@),
{
    if a.len() != b.len() {
        return false;
    }
    let mut i: usize = 0;
    while i < a.len()
        invariant
            i <= a@.len(),
            a@.len() == b@.len(),
            forall|j: int| 0 <= j < i ==> a@[j] == b@[j],
        decreases a@.len() - i,
    {
        if a[i] != b[i] {
            return false;
        }
        i += 1;
    }
    assert(a@ =~= b@);
    true
}

/// The bytes of a slice, in a vector of their own.
pub fn slice_to_vec(s: &[u8]) -> (v: Vec<u8>)
    ensures
        v@ == s@,
{
    let mut v: Vec<u8> = Vec::new();
    let mut i: usize = 0;
    while i < s.len()
        invariant
            i <= s@.len(),
            v@ == s@.take(i as int),
        decreases s@.len() - i,
    {
        v.push(s[i]);
        i += 1;
        assert(v@ =~= s@.take(i as int));
    }
    assert(s@.take(s@.len() as int) =~= s@);
    v
}

/// Whether `a` comes before `b`.
pub fn comes_before(a: &[u8], b: &[u8]) -> (before: bool)
    ensures
        before == less(a@, b@),
{
    let mut i: usize = 0;
    assert(a@.skip(0) =~= a@);
    assert(b@.skip(0) =~= b@);
    while i < a.len() && i < b.len()
        invariant
            i <= a@.len(),
            i <= b@.len(),
            less(a@, b@) == less(a@.skip(i as int), b@.skip(i as int)),
        decreases a@.len() - i,
    {
        assert(a@.skip(i as int).drop_first() =~= a@.skip(i + 1));
        assert(b@.skip(i as int).drop_first() =~= b@.skip(i + 1));
        if a[i] != b[i] {
            return a[i] < b[i];
        }
        i += 1;
    }
    i < b.len()
}

/// The byte strings that a vector of them holds.
pub open spec fn contents(v: Seq<Vec<u8>>) -> Seq<Seq<u8>> {
    v.map_values(|b: Vec<u8>| b@)
}

/// Whether byte strings are in order, each of them once.
pub open spec fn ordered(s: Seq<Seq<u8>>) -> bool {
    forall|i: int, j: int| 0 <= i < j < s.len() ==> less(#[trigger] s[i], #[trigger] s[j])
}

/// There is one way only to put byte strings in order, each of them once.
pub proof fn lemma_ordered_unique(a: Seq<Seq<u8>>, b: Seq<Seq<u8>>)
    requires
        ordered(a),
        ordered(b),
        a.to_set() == b.to_set(),
    ensures
        a == b,
    decreases a.len(),
{
    if a.len() == 0 {
        if b.len() > 0 {
            assert(b.to_set().contains(b[0]));
            assert(a.to_set().contains(b[0]));
        }
        assert(a =~= b);
    } else {
        assert(a.to_set().contains(a[0]));
        assert(b.to_set().contains(a[0]));
        assert(b.len() > 0);
        assert(b.to_set().contains(b[0]));
        assert(a.to_set().contains(b[0]));
        let i = choose|i: int| 0 <= i < b.len() && b[i] == a[0];
        let j = choose|j: int| 0 <= j < a.len() && a[j] == b[0];
        lemma_less_total(a[0], b[0]);
        if i > 0 {
            assert(less(b[0], b[i]));
            assert(j > 0);
            assert(less(a[0], a[j]));
        }
        assert(a[0] == b[0]);
        let ta = a.drop_first();
        let tb = b.drop_first();
        assert forall|x: Seq<u8>| ta.to_set().contains(x) <==> tb.to_set().contains(x) by {
            lemma_less_total(a[0], a[0]);
            if ta.to_set().contains(x) {
                let k = choose|k: int| 0 <= k < ta.len() && ta[k] == x;
                assert(a[k + 1] == x);
                assert(less(a[0], a[k + 1]));
                assert(a.to_set().contains(x));
                let m = choose|m: int| 0 <= m < b.len() && b[m] == x;
                assert(m > 0);
                assert(tb[m - 1] == x);
            }
            if tb.to_set().contains(x) {
                let k = choose|k: int| 0 <= k < tb.len() && tb[k] == x;
                assert(b[k + 1] == x);
                assert(less(b[0], b[k + 1]));
                assert(b.to_set().contains(x));
                let m = choose|m: int| 0 <= m < a.len() && a[m] == x;
                assert(m > 0);
                assert(ta[m - 1] == x);
            }
        }
        assert(ta.to_set() =~= tb.to_set());
        assert forall|p: int, q: int| 0 <= p < q < ta.len() implies less(
            #[trigger] ta[p],
            #[trigger] ta[q],
        ) by {
            assert(less(a[p + 1], a[q + 1]));
        }
        assert forall|p: int, q: int| 0 <= p < q < tb.len() implies less(
            #[trigger] tb[p],
            #[trigger] tb[q],
        ) by {
            assert(less(b[p + 1], b[q + 1]));
        }
        lemma_ordered_unique(ta, tb);
        assert(a =~= seq![a[0]] + ta);
        assert(b =~= seq![b[0]] + tb);
    }
}

/// Byte strings stay in order when another one is put behind all that come
/// before it and in front of all others, and it is all that is added.
pub proof fn lemma_insert_ordered(before: Seq<Seq<u8>>, i: int, value: Seq<u8>)
    requires
        ordered(before),
        0 <= i <= before.len(),
        forall|j: int| 0 <= j < i ==> less(#[trigger] before[j], value),
        i < before.len() ==> less(value, before[i]),
    ensures
        ordered(before.insert(i, value)),
        before.insert(i, value).to_set() == before.to_set().insert(value),
{
    let after = before.insert(i, value);
    assert forall|p: int, q: int| 0 <= p < q < after.len() implies less(
        #[trigger] after[p],
        #[trigger] after[q],
    ) by {
        if q < i {
            assert(less(before[p], before[q]));
        } else if q == i {
            assert(less(before[p], value));
        } else if p < i {
            assert(less(before[p], before[q - 1]));
        } else if p == i {
            if q - 1 > i {
                assert(less(before[i], before[q - 1]));
                lemma_less_transitive(value, before[i], before[q - 1]);
            }
        } else {
            assert(less(before[p - 1], before[q - 1]));
        }
    }
    assert forall|x: Seq<u8>| #[trigger]
        after.to_set().contains(x) <==> before.to_set().insert(value).contains(x) by {
        if after.to_set().contains(x) {
            let k = choose|k: int| 0 <= k < after.len() && after[k] == x;
            if k < i {
                assert(before[k] == x);
            } else if k > i {
                assert(before[k - 1] == x);
            }
        }
        if before.to_set().contains(x) {
            let k = choose|k: int| 0 <= k < before.len() && before[k] == x;
            if k < i {
                assert(after[k] == x);
            } else {
                assert(after[k + 1] == x);
            }
        }
        assert(after[i] == value);
    }
    assert(after.to_set() =~= before.to_set().insert(value));
}

/// Puts a byte string where it belongs, unless it is there.
pub fn insert_ordered(set: &mut Vec<Vec<u8>>, item: Vec<u8>)
    requires
        ordered(contents(old(set)@)),
    ensures
        ordered(contents(final(set)@)),
        contents(final(set)@).to_set() == contents(old(set)@).to_set().insert(item@),
{
    let ghost before = contents(set@);
    let mut i: usize = 0;
    while i < set.len() && comes_before(set[i].as_slice(), item.as_slice())
        invariant
            i <= set@.len(),
            *set == *old(set),
            before == contents(set@),
            forall|j: int| 0 <= j < i ==> less(#[trigger] before[j], item@),
        decreases set@.len() - i,
    {
        assert(before[i as int] == set@[i as int]@);
        i += 1;
    }
    if i < set.len() && same_bytes(set[i].as_slice(), item.as_slice()) {
        proof {
            assert(before[i as int] == item@);
            assert(before.to_set().contains(item@));
            assert(before.to_set() =~= before.to_set().insert(item@));
        }
        return ;
    }
    let ghost value = item@;
    proof {
        if i < set@.len() {
            assert(before[i as int] == set@[i as int]@);
            lemma_less_total(before[i as int], value);
        }
        lemma_insert_ordered(before, i as int, value);
    }
    set.insert(i, item);
    assert(contents(set@) =~= before.insert(i as int, value));
}

/// The byte strings that texts are written in.
pub open spec fn encoded(v: Seq<String>) -> Seq<Seq<u8>> {
    v.map_values(|s: String| vstd::utf8::encode_utf8(s@))
}

/// Puts a text where it belongs, in the order of the bytes that texts are
/// written in, unless it is there.
pub fn insert_ordered_text(set: &mut Vec<String>, item: String)
    requires
        ordered(encoded(old(set)@)),
    ensures
        ordered(encoded(final(set)@)),
        encoded(final(set)@).to_set() == encoded(old(set)@).to_set().insert(
            vstd::utf8::encode_utf8(item@),
        ),
{
    let ghost before = encoded(set@);
    let ghost value = vstd::utf8::encode_utf8(item@);
    let mut i: usize = 0;
    while i < set.len() && comes_before(set[i].as_str().as_bytes(), item.as_str().as_bytes())
        invariant
            i <= set@.len(),
            *set == *old(set),
            before == encoded(set@),
            value == vstd::utf8::encode_utf8(item@),
            forall|j: int| 0 <= j < i ==> less(#[trigger] before[j], value),
        decreases set@.len() - i,
    {
        assert(before[i as int] == vstd::utf8::encode_utf8(set@[i as int]@));
        i += 1;
    }
    if i < set.len() && same_bytes(set[i].as_str().as_bytes(), item.as_str().as_bytes()) {
        proof {
            assert(before[i as int] == value);
            assert(before.to_set().contains(value));
            assert(before.to_set() =~= before.to_set().insert(value));
        }
        return ;
    }
    proof {
        if i < set@.len() {
            assert(before[i as int] == vstd::utf8::encode_utf8(set@[i as int]@));
            lemma_less_total(before[i as int], value);
        }
        lemma_insert_ordered(before, i as int, value);
    }
    set.insert(i, item);
    assert(encoded(set@) =~= before.insert(i as int, value));
}

/// Whether a byte string is in a vector of them.
pub fn contains_bytes(set: &Vec<Vec<u8>>, item: &[u8]) -> (found: bool)
    ensures
        found == contents(set@).contains(item@),
{
    let mut i: usize = 0;
    while i < set.len()
        invariant
            i <= set@.len(),
            forall|j: int| 0 <= j < i ==> #[trigger] set@[j]@ != item@,
        decreases set@.len() - i,
    {
        if same_bytes(set[i].as_slice(), item) {
            assert(contents(set@)[i as int] == item@);
            return true;
        }
        i += 1;
    }
    proof {
        if contents(set@).contains(item@) {
            let k = choose|k: int|
                0 <= k < contents(set@).len() && contents(set@)[k] == item@;
            assert(set@[k]@ == item@);
        }
    }
    false
}

/// Whether two vectors hold the same byte strings.
pub fn same_contents(a: &Vec<Vec<u8>>, b: &Vec<Vec<u8>>) -> (same: bool)
    ensures
        same == (contents(a@) == contents(b@)),
{
    if a.len() != b.len() {
        assert(contents(a@).len() != contents(b@).len());
        return false;
    }
    let mut i: usize = 0;
    while i < a.len()
        invariant
            i <= a@.len(),
            a@.len() == b@.len(),
            forall|j: int| 0 <= j < i ==> #[trigger] a@[j]@ == b@[j]@,
        decreases a@.len() - i,
    {
        if !same_bytes(a[i].as_slice(), b[i].as_slice()) {
            assert(contents(a@)[i as int] != contents(b@)[i as int]);
            return false;
        }
        i += 1;
    }
    assert(contents(a@) =~= contents(b@));
    true
}

} // verus!
