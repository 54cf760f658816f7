//! Laws of the items of a region: which spacing there can be between them, and which tags.
use vstd::prelude::*;

use crate::frame::Tag;
use crate::item::{last_fr_stop, last_stop, Item};

verus! {

/// The tags among the items, in order.
pub open spec fn item_tags(items: Seq<Item>) -> Seq<Tag>
    decreases items.len(),
{
    if items.len() == 0 {
        Seq::empty()
    } else {
        match items.last() {
            Item::Tag(tag) => item_tags(items.drop_last()).push(tag),
            _ => item_tags(items.drop_last()),
        }
    }
}

/// Whether the item at the given index may stand there. Weak spacing is only kept after something
/// that is no weak spacing itself, and weak relative spacing only after a frame or a fractional
/// block; what spacing is collapsed across does not count.
pub open spec fn spacing_valid(items: Seq<Item>, i: int) -> bool {
    let before = last_stop(items.take(i));
    items[i].is_weak() ==> {
        &&& before >= 0
        &&& !items[before].is_weak()
        &&& items[i] is Abs ==> items[before].supports()
    }
}

/// Whether no weak spacing stands at the start or next to other weak spacing.
pub open spec fn spacing_sound(items: Seq<Item>) -> bool {
    forall|i: int| 0 <= i < items.len() ==> #[trigger] spacing_valid(items, i)
}

/// The last item that relative spacing is not collapsed across, and what follows it.
pub proof fn lemma_last_stop(items: Seq<Item>)
    ensures
        -1 <= last_stop(items) < items.len(),
        last_stop(items) >= 0 ==> !items[last_stop(items)].see_through(),
        forall|k: int| last_stop(items) < k < items.len() ==> (#[trigger] items[k]).see_through(),
    decreases items.len(),
{
    if items.len() > 0 && items.last().see_through() {
        let front = items.drop_last();
        lemma_last_stop(front);
        assert forall|k: int| last_stop(items) < k < items.len() implies (
        #[trigger] items[k]).see_through() by {
            if k < front.len() {
                assert(front[k].see_through());
            }
        }
    }
}

/// The last item that fractional spacing is not collapsed across, and what follows it.
pub proof fn lemma_last_fr_stop(items: Seq<Item>)
    ensures
        -1 <= last_fr_stop(items) < items.len(),
        last_fr_stop(items) >= 0 ==> !items[last_fr_stop(items)].fr_see_through(),
        forall|k: int|
            last_fr_stop(items) < k < items.len() ==> (#[trigger] items[k]).fr_see_through(),
    decreases items.len(),
{
    if items.len() > 0 && items.last().fr_see_through() {
        let front = items.drop_last();
        lemma_last_fr_stop(front);
        assert forall|k: int| last_fr_stop(items) < k < items.len() implies (
        #[trigger] items[k]).fr_see_through() by {
            if k < front.len() {
                assert(front[k].fr_see_through());
            }
        }
    }
}

/// An index that only items follow that spacing is collapsed across is that of the last item that
/// it is not.
pub proof fn lemma_is_last_stop(items: Seq<Item>, i: int)
    requires
        -1 <= i < items.len(),
        i >= 0 ==> !items[i].see_through(),
        forall|k: int| i < k < items.len() ==> (#[trigger] items[k]).see_through(),
    ensures
        last_stop(items) == i,
{
    lemma_last_stop(items);
    let j = last_stop(items);
    if j < i {
        assert(items[i].see_through());
    } else if j > i {
        assert(items[j].see_through());
    }
}

/// Whether an item may stand where it does only depends on the items up to it.
proof fn lemma_valid_local(a: Seq<Item>, b: Seq<Item>, i: int)
    requires
        0 <= i < a.len(),
        i < b.len(),
        forall|k: int| 0 <= k <= i ==> a[k] == b[k],
    ensures
        spacing_valid(a, i) == spacing_valid(b, i),
{
    assert(a.take(i) =~= b.take(i));
    lemma_last_stop(a.take(i));
}

/// An item that is no weak spacing can be added anywhere.
pub proof fn lemma_spacing_pushed(items: Seq<Item>, item: Item)
    requires
        spacing_sound(items),
        item.is_weak() ==> last_stop(items) >= 0 && !items[last_stop(items)].is_weak() && (
        item is Abs ==> items[last_stop(items)].supports()),
    ensures
        spacing_sound(items.push(item)),
{
    let after = items.push(item);
    lemma_last_stop(items);
    assert(after.take(items.len() as int) =~= items);
    assert forall|i: int| 0 <= i < after.len() implies #[trigger] spacing_valid(after, i) by {
        if i < items.len() {
            assert(spacing_valid(items, i));
            lemma_valid_local(items, after, i);
        }
    }
}

/// Any number of items that are no weak spacing can be added.
pub proof fn lemma_spacing_appended(items: Seq<Item>, more: Seq<Item>)
    requires
        spacing_sound(items),
        forall|k: int| 0 <= k < more.len() ==> !(#[trigger] more[k]).is_weak(),
    ensures
        spacing_sound(items + more),
    decreases more.len(),
{
    if more.len() == 0 {
        assert(items + more =~= items);
    } else {
        let front = more.drop_last();
        assert forall|k: int| 0 <= k < front.len() implies !(#[trigger] front[k]).is_weak() by {
            assert(front[k] == more[k]);
        }
        lemma_spacing_appended(items, front);
        assert(items + more =~= (items + front).push(more.last()));
        assert(!more[more.len() - 1].is_weak());
        lemma_spacing_pushed(items + front, more.last());
    }
}

/// Items can be taken away from the end.
pub proof fn lemma_spacing_taken(items: Seq<Item>, n: int)
    requires
        spacing_sound(items),
        0 <= n <= items.len(),
    ensures
        spacing_sound(items.take(n)),
{
    let after = items.take(n);
    assert forall|i: int| 0 <= i < after.len() implies #[trigger] spacing_valid(after, i) by {
        assert(spacing_valid(items, i));
        lemma_valid_local(items, after, i);
    }
}

/// Weak relative spacing can be replaced by other weak relative spacing at the end.
pub proof fn lemma_spacing_patched(items: Seq<Item>, item: Item)
    requires
        spacing_sound(items),
        last_stop(items) >= 0,
        items[last_stop(items)] is Abs,
        item is Abs,
        item.is_weak(),
    ensures
        spacing_sound(items.update(last_stop(items), item)),
{
    let i0 = last_stop(items);
    let after = items.update(i0, item);
    lemma_last_stop(items);
    assert forall|i: int| 0 <= i < after.len() implies #[trigger] spacing_valid(after, i) by {
        assert(spacing_valid(items, i));
        if i < i0 {
            lemma_valid_local(items, after, i);
        } else if i == i0 {
            assert(after.take(i) =~= items.take(i));
            lemma_last_stop(items.take(i));
        } else {
            assert(items[i].see_through());
        }
    }
}

/// Weak fractional spacing can be replaced by other weak fractional spacing at the end.
pub proof fn lemma_fr_spacing_patched(items: Seq<Item>, item: Item)
    requires
        spacing_sound(items),
        last_fr_stop(items) >= 0,
        items[last_fr_stop(items)] is Fr,
        !items[last_fr_stop(items)].supports(),
        items[last_fr_stop(items)].is_weak(),
        item is Fr,
        item.is_weak(),
    ensures
        spacing_sound(items.update(last_fr_stop(items), item)),
{
    let i0 = last_fr_stop(items);
    let after = items.update(i0, item);
    lemma_last_fr_stop(items);
    assert forall|i: int| 0 <= i < after.len() implies #[trigger] spacing_valid(after, i) by {
        assert(spacing_valid(items, i));
        if i < i0 {
            lemma_valid_local(items, after, i);
        } else if i == i0 {
            assert(after.take(i) =~= items.take(i));
            lemma_last_stop(items.take(i));
        } else {
            // Weak relative spacing would not have been kept after fractional spacing.
            assert(items[i].fr_see_through());
            let before = last_stop(items.take(i));
            lemma_last_stop(items.take(i));
            if items[i].is_weak() {
                if before < i0 {
                    assert(items.take(i)[i0].see_through());
                } else if before > i0 {
                    assert(items[before].fr_see_through());
                }
            }
        }
    }
}

/// Weak spacing can be removed from the end, and none is left there then.
pub proof fn lemma_spacing_trimmed(items: Seq<Item>)
    requires
        spacing_sound(items),
        last_stop(items) >= 0,
        items[last_stop(items)].is_weak(),
    ensures
        ({
            let after = items.remove(last_stop(items));
            &&& spacing_sound(after)
            &&& last_stop(after) == last_stop(items.take(last_stop(items)))
            &&& last_stop(after) >= 0
            &&& !after[last_stop(after)].is_weak()
        }),
{
    let i0 = last_stop(items);
    let after = items.remove(i0);
    lemma_last_stop(items);
    assert(spacing_valid(items, i0));
    let before = last_stop(items.take(i0));
    lemma_last_stop(items.take(i0));
    assert forall|k: int| before < k < after.len() implies (#[trigger] after[k]).see_through() by {
        if k < i0 {
            assert(items.take(i0)[k].see_through());
        } else {
            assert(items[k + 1].see_through());
        }
    }
    lemma_is_last_stop(after, before);
    assert forall|i: int| 0 <= i < after.len() implies #[trigger] spacing_valid(after, i) by {
        if i < i0 {
            assert(spacing_valid(items, i));
            lemma_valid_local(items, after, i);
        } else {
            assert(items[i + 1].see_through());
        }
    }
}

/// Items that are no tags add no tags.
pub proof fn lemma_item_pushed(items: Seq<Item>, item: Item)
    ensures
        item_tags(items.push(item)) == match item {
            Item::Tag(tag) => item_tags(items).push(tag),
            _ => item_tags(items),
        },
{
    assert(items.push(item).drop_last() =~= items);
}

/// Items for tags add these tags.
pub proof fn lemma_tag_items(items: Seq<Item>, tags: Seq<Tag>)
    ensures
        item_tags(items + tags.map_values(|tag: Tag| Item::Tag(tag))) == item_tags(items) + tags,
    decreases tags.len(),
{
    let added = tags.map_values(|tag: Tag| Item::Tag(tag));
    if tags.len() == 0 {
        assert(items + added =~= items);
        assert(item_tags(items) + tags =~= item_tags(items));
    } else {
        let front = tags.drop_last();
        lemma_tag_items(items, front);
        assert((items + added).drop_last() =~= items + front.map_values(|tag: Tag| Item::Tag(tag)));
        assert((items + added).last() == Item::Tag(tags.last()));
        assert((item_tags(items) + front).push(tags.last()) =~= item_tags(items) + tags);
    }
}

/// Replacing an item that is no tag by another changes no tags.
pub proof fn lemma_item_replaced(items: Seq<Item>, i: int, item: Item)
    requires
        0 <= i < items.len(),
        !(items[i] is Tag),
        !(item is Tag),
    ensures
        item_tags(items.update(i, item)) == item_tags(items),
    decreases items.len(),
{
    let after = items.update(i, item);
    if i == items.len() - 1 {
        assert(after.drop_last() =~= items.drop_last());
    } else {
        assert(after.drop_last() =~= items.drop_last().update(i, item));
        lemma_item_replaced(items.drop_last(), i, item);
    }
}

/// Removing an item that is no tag removes no tags.
pub proof fn lemma_item_removed(items: Seq<Item>, i: int)
    requires
        0 <= i < items.len(),
        !(items[i] is Tag),
    ensures
        item_tags(items.remove(i)) == item_tags(items),
    decreases items.len(),
{
    let after = items.remove(i);
    if i == items.len() - 1 {
        assert(after =~= items.drop_last());
    } else {
        assert(after.drop_last() =~= items.drop_last().remove(i));
        lemma_item_removed(items.drop_last(), i);
    }
}

} // verus!
