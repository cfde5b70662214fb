//! Searching and editing a queue of items by key. The key of an item is its
//! remote path.

use crate::types::{QueueItem, QueueItemView};
use vstd::prelude::*;

verus! {

/// The first position at or after `from` whose element satisfies `wanted`, or
/// the length of the sequence where there is none.
pub open spec fn first_where<T>(items: Seq<T>, wanted: spec_fn(T) -> bool, from: int) -> int
    decreases items.len() - from,
{
    if from < 0 || from >= items.len() {
        items.len() as int
    } else if wanted(items[from]) {
        from
    } else {
        first_where(items, wanted, from + 1)
    }
}

/// `first_where` returns the least position from `from` on that satisfies
/// the predicate.
pub proof fn lemma_first_where<T>(items: Seq<T>, wanted: spec_fn(T) -> bool, from: int)
    requires
        0 <= from <= items.len(),
    ensures
        from <= first_where(items, wanted, from) <= items.len(),
        first_where(items, wanted, from) < items.len() ==> wanted(
            items[first_where(items, wanted, from)],
        ),
        forall|j: int| from <= j < first_where(items, wanted, from) ==> !wanted(#[trigger] items[j]),
    decreases items.len() - from,
{
    if from < items.len() && !wanted(items[from]) {
        lemma_first_where(items, wanted, from + 1);
    }
}

/// A position that satisfies the predicate, with none before it that does, is
/// the one that `first_where` returns.
pub proof fn lemma_first_where_is(
    items: Seq<QueueItemView>,
    wanted: spec_fn(QueueItemView) -> bool,
    at: int,
)
    requires
        0 <= at <= items.len(),
        at < items.len() ==> wanted(items[at]),
        forall|j: int| 0 <= j < at ==> !wanted(#[trigger] items[j]),
    ensures
        first_where(items, wanted, 0) == at,
{
    lemma_first_where(items, wanted, 0);
    let found = first_where(items, wanted, 0);
    if found < at {
        assert(!wanted(items[found]));
    }
    if at < found {
        assert(!wanted(items[at]));
    }
}

/// The predicate "has this key".
pub open spec fn keyed(key: Seq<char>) -> spec_fn(QueueItemView) -> bool {
    |item: QueueItemView| item.remote_file == key
}

/// The predicate "has another key than this".
pub open spec fn not_keyed(key: Seq<char>) -> spec_fn(QueueItemView) -> bool {
    |item: QueueItemView| item.remote_file != key
}

/// Whether some item of the queue has the key.
pub open spec fn has_key(queue: Seq<QueueItemView>, key: Seq<char>) -> bool {
    exists|i: int| 0 <= i < queue.len() && (#[trigger] queue[i]).remote_file == key
}

/// Whether no two items of the queue share a key.
pub open spec fn keys_unique(queue: Seq<QueueItemView>) -> bool {
    forall|i: int, j: int|
        0 <= i < j < queue.len() ==> (#[trigger] queue[i]).remote_file != (
        #[trigger] queue[j]).remote_file
}

/// The position of the first item with the key, or the length of the queue.
pub open spec fn index_of(queue: Seq<QueueItemView>, key: Seq<char>) -> int {
    first_where(queue, keyed(key), 0)
}

/// The queue without the items that have the key.
pub open spec fn without_key(queue: Seq<QueueItemView>, key: Seq<char>) -> Seq<QueueItemView> {
    queue.filter(not_keyed(key))
}

/// The queue with `change` applied to the first item that has the key;
/// unchanged where no item has it.
pub open spec fn with_first(
    queue: Seq<QueueItemView>,
    key: Seq<char>,
    change: spec_fn(QueueItemView) -> QueueItemView,
) -> Seq<QueueItemView> {
    let at = index_of(queue, key);
    if at < queue.len() {
        queue.update(at, change(queue[at]))
    } else {
        queue
    }
}

/// The queue with `offset` written to the first item that has the key;
/// unchanged where no item has it.
pub open spec fn with_offset(queue: Seq<QueueItemView>, key: Seq<char>, offset: u64) -> Seq<
    QueueItemView,
> {
    with_first(queue, key, |item: QueueItemView| QueueItemView { bytes_downloaded: offset, ..item })
}

/// How many items of the queue are pending.
pub open spec fn pending_count(queue: Seq<QueueItemView>) -> nat {
    queue.filter(|item: QueueItemView| item.status is Pending).len()
}

/// Taking a key out keeps the order of the other items, so it keeps their
/// keys apart where they were apart.
pub proof fn lemma_without_key(queue: Seq<QueueItemView>, key: Seq<char>)
    requires
        keys_unique(queue),
    ensures
        keys_unique(without_key(queue, key)),
        !has_key(without_key(queue, key), key),
    decreases queue.len(),
{
    reveal(Seq::filter);
    if queue.len() > 0 {
        let rest = queue.drop_last();
        lemma_without_key(rest, key);
        let kept = without_key(rest, key);
        if not_keyed(key)(queue.last()) {
            assert(without_key(queue, key) == kept.push(queue.last()));
            assert forall|i: int| 0 <= i < kept.len() implies (#[trigger] kept[i]).remote_file
                != queue.last().remote_file by {
                rest.lemma_filter_contains_rev(not_keyed(key), kept[i]);
                let j = choose|j: int| 0 <= j < rest.len() && rest[j] == kept[i];
                assert(queue[j].remote_file != queue[queue.len() - 1].remote_file);
            }
        }
    }
}

/// Changing the first item with a key keeps all keys where the change keeps
/// the item's key, so it keeps the keys apart where they were apart.
pub proof fn lemma_with_first_keeps_keys(
    queue: Seq<QueueItemView>,
    key: Seq<char>,
    change: spec_fn(QueueItemView) -> QueueItemView,
)
    requires
        forall|item: QueueItemView| (#[trigger] change(item)).remote_file == item.remote_file,
    ensures
        with_first(queue, key, change).len() == queue.len(),
        forall|i: int|
            0 <= i < queue.len() ==> (#[trigger] with_first(queue, key, change)[i]).remote_file
                == queue[i].remote_file,
        keys_unique(queue) ==> keys_unique(with_first(queue, key, change)),
{
    lemma_first_where(queue, keyed(key), 0);
    let after = with_first(queue, key, change);
    assert forall|i: int| 0 <= i < queue.len() implies (#[trigger] after[i]).remote_file
        == queue[i].remote_file by {
        assert(change(queue[i]).remote_file == queue[i].remote_file);
    }
    if keys_unique(queue) {
        assert forall|i: int, j: int| 0 <= i < j < after.len() implies (#[trigger] after[i]).remote_file
            != (#[trigger] after[j]).remote_file by {
            assert(queue[i].remote_file != queue[j].remote_file);
        }
    }
}

/// Taking a key out brings no key in: a key that no item had, no item has
/// afterwards.
pub proof fn lemma_without_key_keeps_absent(
    queue: Seq<QueueItemView>,
    gone: Seq<char>,
    key: Seq<char>,
)
    requires
        !has_key(queue, key),
    ensures
        !has_key(without_key(queue, gone), key),
{
    let kept = without_key(queue, gone);
    if has_key(kept, key) {
        let i = choose|i: int| 0 <= i < kept.len() && (#[trigger] kept[i]).remote_file == key;
        assert(kept.contains(kept[i]));
        queue.lemma_filter_contains_rev(not_keyed(gone), kept[i]);
        let j = choose|j: int| 0 <= j < queue.len() && queue[j] == kept[i];
        assert(queue[j].remote_file == key);
    }
}

/// Where no element satisfies the predicate, filtering keeps nothing.
pub proof fn lemma_filter_none<T>(items: Seq<T>, wanted: spec_fn(T) -> bool)
    requires
        forall|i: int| 0 <= i < items.len() ==> !wanted(#[trigger] items[i]),
    ensures
        items.filter(wanted) == Seq::<T>::empty(),
{
    let kept = items.filter(wanted);
    if kept.len() > 0 {
        items.lemma_filter_pred(wanted, 0);
        assert(kept.contains(kept[0]));
        items.lemma_filter_contains_rev(wanted, kept[0]);
        let j = choose|j: int| 0 <= j < items.len() && items[j] == kept[0];
        assert(!wanted(items[j]));
    }
    assert(kept =~= Seq::<T>::empty());
}

/// Elements at the front that the predicate rejects can be left out before
/// filtering.
pub proof fn lemma_filter_skips_rejected<T>(items: Seq<T>, wanted: spec_fn(T) -> bool, upto: int)
    requires
        0 <= upto <= items.len(),
        forall|i: int| 0 <= i < upto ==> !wanted(#[trigger] items[i]),
    ensures
        items.filter(wanted) == items.skip(upto).filter(wanted),
{
    let front = items.take(upto);
    let back = items.skip(upto);
    assert(items =~= front + back);
    Seq::filter_distributes_over_add(front, back, wanted);
    assert forall|i: int| 0 <= i < front.len() implies !wanted(#[trigger] front[i]) by {
        assert(front[i] == items[i]);
    }
    lemma_filter_none(front, wanted);
    assert(Seq::<T>::empty() + back.filter(wanted) =~= back.filter(wanted));
}

/// Two predicates that agree on every element keep the same elements.
pub proof fn lemma_filter_agree<T>(
    items: Seq<T>,
    first: spec_fn(T) -> bool,
    second: spec_fn(T) -> bool,
)
    requires
        forall|i: int| 0 <= i < items.len() ==> first(#[trigger] items[i]) == second(items[i]),
    ensures
        items.filter(first) == items.filter(second),
    decreases items.len(),
{
    reveal(Seq::filter);
    if items.len() > 0 {
        let rest = items.drop_last();
        assert forall|i: int| 0 <= i < rest.len() implies first(#[trigger] rest[i]) == second(
            rest[i],
        ) by {
            assert(rest[i] == items[i]);
        }
        lemma_filter_agree(rest, first, second);
        assert(first(items[items.len() - 1]) == second(items[items.len() - 1]));
    }
}

/// Filtering starts with the first element that satisfies the predicate and
/// goes on with what the elements after it give.
pub proof fn lemma_filter_from_first<T>(items: Seq<T>, wanted: spec_fn(T) -> bool)
    ensures
        first_where(items, wanted, 0) >= items.len() ==> items.filter(wanted) == Seq::<T>::empty(),
        first_where(items, wanted, 0) < items.len() ==> items.filter(wanted) == seq![
            items[first_where(items, wanted, 0)],
        ] + items.skip(first_where(items, wanted, 0) + 1).filter(wanted),
{
    let at = first_where(items, wanted, 0);
    lemma_first_where(items, wanted, 0);
    if at >= items.len() {
        lemma_filter_none(items, wanted);
    } else {
        lemma_filter_skips_rejected(items, wanted, at);
        assert(items.skip(at) =~= seq![items[at]] + items.skip(at + 1));
        items.skip(at + 1).lemma_filter_prepend(items[at], wanted);
    }
}

/// Finds the first item with the key.
pub fn find_key(queue: &Vec<QueueItem>, key: &String) -> (found: Option<usize>)
    ensures
        match found {
            Some(at) => at == index_of(queue.deep_view(), key@) && at < queue@.len()
                && queue@[at as int].remote_file@ == key@ && has_key(queue.deep_view(), key@),
            None => index_of(queue.deep_view(), key@) == queue@.len() && !has_key(
                queue.deep_view(),
                key@,
            ),
        },
{
    let ghost items = queue.deep_view();
    let mut at: usize = 0;
    while at < queue.len()
        invariant
            at <= queue@.len(),
            items == queue.deep_view(),
            forall|j: int| 0 <= j < at ==> !keyed(key@)(#[trigger] items[j]),
        decreases queue@.len() - at,
    {
        if queue[at].remote_file == *key {
            proof {
                assert(keyed(key@)(items[at as int]));
                assert(items[at as int].remote_file == key@);
                lemma_first_where_is(items, keyed(key@), at as int);
            }
            return Some(at);
        }
        at += 1;
    }
    proof {
        lemma_first_where_is(items, keyed(key@), at as int);
        assert forall|i: int| 0 <= i < items.len() implies (#[trigger] items[i]).remote_file
            != key@ by {
            assert(!keyed(key@)(items[i]));
        }
    }
    None
}

/// Takes every item with the key out of the queue.
pub fn remove_key(queue: &mut Vec<QueueItem>, key: &String)
    ensures
        final(queue).deep_view() == without_key(old(queue).deep_view(), key@),
{
    let ghost items = queue.deep_view();
    let mut kept: Vec<QueueItem> = Vec::new();
    let mut at: usize = 0;
    assert(items.take(0) =~= Seq::<QueueItemView>::empty());
    assert(kept.deep_view() =~= Seq::<QueueItemView>::empty());
    proof {
        reveal(Seq::filter);
    }
    while at < queue.len()
        invariant
            at <= queue@.len(),
            items == queue.deep_view(),
            kept.deep_view() == items.take(at as int).filter(not_keyed(key@)),
        decreases queue@.len() - at,
    {
        let ghost before = kept.deep_view();
        proof {
            assert(items.take(at + 1) =~= items.take(at as int).push(items[at as int]));
            items.take(at as int).lemma_filter_push(items[at as int], not_keyed(key@));
        }
        if !(queue[at].remote_file == *key) {
            kept.push(queue[at].clone());
            assert(kept.deep_view() =~= before.push(items[at as int]));
        }
        at += 1;
    }
    assert(items.take(at as int) =~= items);
    *queue = kept;
}

/// Counts the pending items.
pub fn count_pending(queue: &Vec<QueueItem>) -> (count: usize)
    ensures
        count == pending_count(queue.deep_view()),
{
    let ghost items = queue.deep_view();
    let ghost pending = |item: QueueItemView| item.status is Pending;
    let mut count: usize = 0;
    let mut at: usize = 0;
    assert(items.take(0) =~= Seq::<QueueItemView>::empty());
    proof {
        reveal(Seq::filter);
    }
    while at < queue.len()
        invariant
            at <= queue@.len(),
            items == queue.deep_view(),
            pending == (|item: QueueItemView| item.status is Pending),
            count == items.take(at as int).filter(pending).len(),
            count <= at,
        decreases queue@.len() - at,
    {
        proof {
            assert(items.take(at + 1) =~= items.take(at as int).push(items[at as int]));
            items.take(at as int).lemma_filter_push(items[at as int], pending);
        }
        if queue[at].status.is_pending() {
            count += 1;
        }
        at += 1;
    }
    assert(items.take(at as int) =~= items);
    count
}

/// Tells whether some item is pending.
pub fn any_pending(queue: &Vec<QueueItem>) -> (found: bool)
    ensures
        found == exists|i: int|
            0 <= i < queue@.len() && (#[trigger] queue.deep_view()[i]).status is Pending,
{
    let ghost items = queue.deep_view();
    let mut at: usize = 0;
    while at < queue.len()
        invariant
            at <= queue@.len(),
            items == queue.deep_view(),
            forall|j: int| 0 <= j < at ==> !((#[trigger] items[j]).status is Pending),
        decreases queue@.len() - at,
    {
        if queue[at].status.is_pending() {
            assert(items[at as int].status is Pending);
            return true;
        }
        at += 1;
    }
    false
}

/// A queue of items in insertion order in which no key occurs twice.
pub struct ItemQueue {
    items: Vec<QueueItem>,
}

impl View for ItemQueue {
    type V = Seq<QueueItemView>;

    closed spec fn view(&self) -> Seq<QueueItemView> {
        self.items.deep_view()
    }
}

impl ItemQueue {
    /// What every value of the type keeps: no two items share a key.
    #[verifier::type_invariant]
    pub closed spec fn inv(self) -> bool {
        keys_unique(self.items.deep_view())
    }

    /// What the invariant means for the view.
    pub proof fn lemma_inv(self)
        requires
            self.inv(),
        ensures
            keys_unique(self@),
    {
    }

    pub fn new() -> (queue: ItemQueue)
        ensures
            queue@ == Seq::<QueueItemView>::empty(),
    {
        let queue = ItemQueue { items: Vec::new() };
        assert(queue.items.deep_view() =~= Seq::<QueueItemView>::empty());
        queue
    }

    /// The items in insertion order.
    pub fn items(&self) -> (items: &Vec<QueueItem>)
        ensures
            items.deep_view() == self@,
            keys_unique(self@),
    {
        proof {
            use_type_invariant(self);
        }
        &self.items
    }

    /// Appends the item unless its key is queued; tells whether it was appended.
    pub fn push(&mut self, item: QueueItem) -> (added: bool)
        ensures
            added == !has_key(old(self)@, item@.remote_file),
            final(self)@ == (if added {
                old(self)@.push(item@)
            } else {
                old(self)@
            }),
    {
        proof {
            use_type_invariant(&*self);
        }
        match find_key(&self.items, &item.remote_file) {
            Some(_) => false,
            None => {
                let ghost before = self.items.deep_view();
                let mut items: Vec<QueueItem> = Vec::new();
                std::mem::swap(&mut items, &mut self.items);
                items.push(item);
                proof {
                    let after = items.deep_view();
                    assert(after =~= before.push(item@));
                    assert forall|i: int, j: int| 0 <= i < j < after.len() implies (
                    #[trigger] after[i]).remote_file != (#[trigger] after[j]).remote_file by {
                        assert(after[i] == before[i]);
                        if j < before.len() {
                            assert(after[j] == before[j]);
                        }
                    }
                }
                self.items = items;
                true
            },
        }
    }

    /// Takes the item with the key out.
    pub fn remove(&mut self, key: &String)
        ensures
            final(self)@ == without_key(old(self)@, key@),
    {
        proof {
            use_type_invariant(&*self);
            lemma_without_key(self.items.deep_view(), key@);
        }
        let mut items: Vec<QueueItem> = Vec::new();
        std::mem::swap(&mut items, &mut self.items);
        remove_key(&mut items, key);
        self.items = items;
    }

    /// Writes the offset to the item with the key, where there is one.
    pub fn set_offset(&mut self, key: &String, offset: u64)
        ensures
            final(self)@ == with_offset(old(self)@, key@, offset),
    {
        proof {
            use_type_invariant(&*self);
        }
        match find_key(&self.items, key) {
            Some(at) => {
                let ghost before = self.items.deep_view();
                let mut item = self.items[at].clone();
                item.bytes_downloaded = offset;
                let mut items: Vec<QueueItem> = Vec::new();
                std::mem::swap(&mut items, &mut self.items);
                items.set(at, item);
                proof {
                    let after = items.deep_view();
                    assert(after =~= before.update(
                        at as int,
                        QueueItemView { bytes_downloaded: offset, ..before[at as int] },
                    ));
                    assert forall|i: int, j: int| 0 <= i < j < after.len() implies (
                    #[trigger] after[i]).remote_file != (#[trigger] after[j]).remote_file by {
                        assert(after[i].remote_file == before[i].remote_file);
                        assert(after[j].remote_file == before[j].remote_file);
                    }
                }
                self.items = items;
            },
            None => {},
        }
    }
}

} // verus!
