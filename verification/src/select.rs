//! Partitioning by key.

use vstd::prelude::*;
use vstd::seq_lib::*;

verus! {

/// The entries before `mid` have keys no larger, and the entries from `mid` on
/// keys no smaller, than the key of the entry at `mid`.
pub open spec fn is_selected(entries: Seq<(i64, usize)>, mid: int) -> bool {
    &&& forall|i: int| 0 <= i < mid ==> (#[trigger] entries[i]).0 <= entries[mid].0
    &&& forall|i: int| mid <= i < entries.len() ==> entries[mid].0 <= (#[trigger] entries[i]).0
}

/// Calls `<[T]>::select_nth_unstable_by_key` of the standard library with the
/// first component as the key.
///
/// It is documented to reorder the slice so that the element at `mid` is the
/// one that sorting by the key would put there, with no larger keys before it
/// and no smaller keys behind it, and to panic when `mid` is out of range.  How
/// the entries on either side are ordered is left open.
#[verifier::external_body]
fn select_nth(entries: &mut Vec<(i64, usize)>, mid: usize)
    requires
        mid < old(entries)@.len(),
    ensures
        final(entries)@.to_multiset() == old(entries)@.to_multiset(),
        is_selected(final(entries)@, mid as int),
{
    entries.select_nth_unstable_by_key(mid, |entry| entry.0);
}

/// A rearrangement has the same length.
pub proof fn lemma_permutation_len<A>(a: Seq<A>, b: Seq<A>)
    requires
        a.to_multiset() == b.to_multiset(),
    ensures
        a.len() == b.len(),
{
    broadcast use group_to_multiset_ensures;

    assert(a.to_multiset().len() == a.len());
    assert(b.to_multiset().len() == b.len());
}

/// Rearranging a sequence rearranges what a function makes of it.
pub proof fn lemma_map_keeps_permutation<A, B>(a: Seq<A>, b: Seq<A>, f: spec_fn(A) -> B)
    requires
        a.to_multiset() == b.to_multiset(),
    ensures
        a.map_values(f).to_multiset() == b.map_values(f).to_multiset(),
    decreases a.len(),
{
    broadcast use group_to_multiset_ensures;

    lemma_permutation_len(a, b);
    if a.len() > 0 {
        let last = a.last();
        assert(a.to_multiset().contains(last)) by {
            assert(a.contains(last));
        }
        assert(b.contains(last));
        let at = choose|at: int| 0 <= at < b.len() && b[at] == last;
        let front = a.drop_last();
        let rest = b.remove(at);
        assert(front =~= a.remove(a.len() - 1));
        assert(front.to_multiset() == rest.to_multiset());
        lemma_map_keeps_permutation(front, rest, f);
        assert(a.map_values(f) =~= front.map_values(f).push(f(last)));
        assert(b.map_values(f).remove(at) =~= rest.map_values(f));
        assert(b.map_values(f).to_multiset().remove(f(last)) == rest.map_values(f).to_multiset());
        assert(b.map_values(f).contains(f(last))) by {
            assert(b.map_values(f)[at] == f(last));
        }
        assert(b.map_values(f).to_multiset() =~= rest.map_values(f).to_multiset().insert(f(last)));
    } else {
        assert(a.map_values(f) =~= b.map_values(f));
    }
}

/// A rearrangement has the same elements.
pub proof fn lemma_permutation_contains<A>(a: Seq<A>, b: Seq<A>, i: int)
    requires
        a.to_multiset() == b.to_multiset(),
        0 <= i < a.len(),
    ensures
        b.contains(a[i]),
{
    broadcast use group_to_multiset_ensures;

    assert(a.contains(a[i]));
    assert(a.to_multiset().contains(a[i]));
}

/// Rearranging two parts rearranges the whole.
pub proof fn lemma_concat_keeps_permutation<A>(a: Seq<A>, b: Seq<A>, c: Seq<A>, d: Seq<A>)
    requires
        a.to_multiset() == c.to_multiset(),
        b.to_multiset() == d.to_multiset(),
    ensures
        (a + b).to_multiset() == (c + d).to_multiset(),
{
    lemma_multiset_commutative(a, b);
    lemma_multiset_commutative(c, d);
}

/// Rearranges `items[start .. end]` by the keys of its entries, so that what
/// lies before position `start + mid` has no larger keys than what lies behind.
/// `keys[i]` is the key of `items[start + i]`.
pub(crate) fn partition_by_keys<T: Copy>(
    items: &mut Vec<T>,
    start: usize,
    end: usize,
    keys: &Vec<i64>,
    mid: usize,
    key: Ghost<spec_fn(T) -> int>,
)
    requires
        start <= end <= old(items)@.len(),
        keys@.len() == end - start,
        mid < keys@.len(),
        forall|i: int|
            0 <= i < keys@.len() ==> #[trigger] keys@[i] == key@(old(items)@[start + i]),
    ensures
        final(items)@.len() == old(items)@.len(),
        forall|i: int|
            0 <= i < old(items)@.len() && !(start <= i < end) ==> final(items)@[i] == old(
                items,
            )@[i],
        final(items)@.subrange(start as int, end as int).to_multiset() == old(items)@.subrange(
            start as int,
            end as int,
        ).to_multiset(),
        forall|i: int, j: int|
            start <= i < start + mid <= j < end ==> key@(#[trigger] final(items)@[i]) <= key@(
                #[trigger] final(items)@[j],
            ),
{
    let ghost before = items@;
    let ghost range = before.subrange(start as int, end as int);
    let count: usize = end - start;
    let mut entries: Vec<(i64, usize)> = Vec::new();
    let mut copies: Vec<T> = Vec::new();
    let mut next: usize = 0;
    while next < count
        invariant
            next <= count,
            count == end - start,
            start <= end <= items@.len(),
            items@ == before,
            keys@.len() == count,
            range == before.subrange(start as int, end as int),
            copies@ == range.take(next as int),
            entries@.len() == next,
            forall|i: int| 0 <= i < next ==> #[trigger] entries@[i] == (keys@[i], i as usize),
        decreases count - next,
    {
        entries.push((keys[next], next));
        copies.push(items[start + next]);
        assert(copies@ =~= range.take(next + 1));
        next += 1;
    }
    assert(copies@ =~= range);
    let ghost sorted_in = entries@;
    select_nth(&mut entries, mid);
    let ghost sorted_out = entries@;
    let ghost pick = |entry: (i64, usize)| range[entry.1 as int];
    proof {
        lemma_permutation_len(sorted_out, sorted_in);
        lemma_map_keeps_permutation(sorted_out, sorted_in, pick);
        assert(sorted_in.map_values(pick) =~= range);
        assert forall|i: int| 0 <= i < count implies (#[trigger] sorted_out[i]).1 < count
            && sorted_out[i].0 == key@(range[sorted_out[i].1 as int]) by {
            lemma_permutation_contains(sorted_out, sorted_in, i);
            let at = choose|at: int|
                0 <= at < sorted_in.len() && sorted_in[at] == sorted_out[i];
            assert(sorted_in[at] == (keys@[at], at as usize));
        }
    }
    let mut place: usize = 0;
    while place < count
        invariant
            place <= count,
            count == end - start,
            start <= end <= items@.len(),
            items@.len() == before.len(),
            entries@ == sorted_out,
            sorted_out.len() == count,
            copies@ == range,
            range.len() == count,
            forall|i: int| 0 <= i < count ==> (#[trigger] sorted_out[i]).1 < count,
            forall|i: int|
                0 <= i < before.len() && !(start <= i < start + place) ==> items@[i] == before[i],
            forall|i: int|
                start <= i < start + place ==> #[trigger] items@[i] == range[sorted_out[i
                    - start].1 as int],
        decreases count - place,
    {
        let entry = entries[place];
        assert(entry == sorted_out[place as int]);
        items.set(start + place, copies[entry.1]);
        place += 1;
    }
    proof {
        assert(items@.subrange(start as int, end as int) =~= sorted_out.map_values(pick));
        assert forall|i: int, j: int| start <= i < start + mid <= j < end implies key@(
            #[trigger] items@[i],
        ) <= key@(#[trigger] items@[j]) by {
            assert(sorted_out[i - start].0 <= sorted_out[mid as int].0);
            assert(sorted_out[mid as int].0 <= sorted_out[j - start].0);
        }
    }
}

} // verus!
