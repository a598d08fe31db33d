use vstd::prelude::*;

verus! {

/// The texts of a sequence of strings.
pub open spec fn strings_view(v: Seq<String>) -> Seq<Seq<char>> {
    v.map_values(|s: String| s@)
}

/// The items of `items` that differ from `item`, in order.
pub open spec fn without_item(items: Seq<Seq<char>>, item: Seq<char>) -> Seq<Seq<char>> {
    items.filter(differs_from(item))
}

/// Whether a text differs from `item`.
pub open spec fn differs_from(item: Seq<char>) -> spec_fn(Seq<char>) -> bool {
    |s: Seq<char>| s != item
}

/// Consumes a vector and returns it without any element equal to `item`.
pub trait WithItemRemoved<T> {
    fn with_item_removed(self, item: &T) -> Self;
}

impl WithItemRemoved<String> for Vec<String> {
    fn with_item_removed(self, item: &String) -> (result: Vec<String>)
        ensures
            strings_view(result@) == without_item(strings_view(self@), item@),
    {
        let mut result: Vec<String> = Vec::new();
        let mut i: usize = 0;
        proof { assert(strings_view(self@).take(0) =~= Seq::<Seq<char>>::empty()); }
        while i < self.len()
            invariant
                i <= self.len(),
                strings_view(result@) == without_item(strings_view(self@).take(i as int), item@),
            decreases self.len() - i,
        {
            let ghost sv = strings_view(self@);
            let ghost before = result@;
            proof {
                reveal(Seq::filter);
                assert(sv.take(i + 1).drop_last() =~= sv.take(i as int));
                assert(sv.take(i + 1).last() == self@[i as int]@);
            }
            if !crate::text::str_eq(self[i].as_str(), item.as_str()) {
                let c = self[i].clone();
                result.push(c);
                proof {
                    assert(strings_view(result@) =~= strings_view(before).push(c@));
                }
            }
            i = i + 1;
        }
        proof {
            assert(strings_view(self@).take(self.len() as int) =~= strings_view(self@));
        }
        result
    }
}

/// Consumes a vector and returns it with one more element at its end.
pub trait WithItemAdded<T> {
    fn with_push(self, item: T) -> Self;
}

impl<T> WithItemAdded<T> for Vec<T> {
    fn with_push(self, item: T) -> (result: Vec<T>)
        ensures
            result@ == self@.push(item),
    {
        let mut v = self;
        v.push(item);
        v
    }
}

/// Removing an item leaves no copy of it and keeps every other item.
pub proof fn lemma_without_item(items: Seq<Seq<char>>, item: Seq<char>)
    ensures
        !without_item(items, item).contains(item),
        forall|other: Seq<char>|
            other != item ==> (#[trigger] without_item(items, item).contains(other)
                <==> items.contains(other)),
{
    broadcast use vstd::seq_lib::group_filter_ensures;

    let keep = differs_from(item);
    assert(!without_item(items, item).contains(item)) by {
        if without_item(items, item).contains(item) {
            let i = choose|i: int|
                0 <= i < without_item(items, item).len() && without_item(items, item)[i] == item;
            assert(keep(without_item(items, item)[i]));
        }
    }
    assert forall|other: Seq<char>| other != item implies (#[trigger] without_item(
        items,
        item,
    ).contains(other) <==> items.contains(other)) by {
        if items.contains(other) {
            let i = choose|i: int| 0 <= i < items.len() && items[i] == other;
            assert(keep(items[i]));
        }
        if without_item(items, item).contains(other) {
            items.lemma_filter_contains_rev(keep, other);
        }
    }
}

/// Removing an item undoes appending it: the appended copy goes, like every other.
pub proof fn lemma_without_pushed_item(items: Seq<Seq<char>>, item: Seq<char>)
    ensures
        without_item(items.push(item), item) == without_item(items, item),
{
    let keep = differs_from(item);
    items.lemma_filter_push(item, keep);
}

/// Removing an item twice removes no more than removing it once.
pub proof fn lemma_without_item_idempotent(items: Seq<Seq<char>>, item: Seq<char>)
    ensures
        without_item(without_item(items, item), item) == without_item(items, item),
{
    let keep = differs_from(item);
    let once = items.filter(keep);
    assert(once.filter(keep) =~= once) by {
        broadcast use vstd::seq_lib::group_filter_ensures;

        lemma_filter_all(once, keep);
    }
}

proof fn lemma_filter_all(s: Seq<Seq<char>>, keep: spec_fn(Seq<char>) -> bool)
    requires
        forall|i: int| 0 <= i < s.len() ==> keep(#[trigger] s[i]),
    ensures
        s.filter(keep) == s,
    decreases s.len(),
{
    reveal(Seq::filter);
    if s.len() > 0 {
        lemma_filter_all(s.drop_last(), keep);
        assert(s.drop_last().push(s.last()) =~= s);
    } else {
        assert(s.filter(keep) =~= s);
    }
}

} // verus!
