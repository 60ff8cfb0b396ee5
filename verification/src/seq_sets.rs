//! Sequences as sets: what a sequence holds after an item is put in or
//! taken out.

use vstd::prelude::*;

verus! {

/// What a sequence holds after an item was put behind it.
pub proof fn lemma_push_to_set<T>(items: Seq<T>, item: T)
    ensures
        items.push(item).to_set() == items.to_set().insert(item),
        !items.contains(item) && items.no_duplicates() ==> items.push(item).no_duplicates(),
{
    let pushed = items.push(item);
    assert forall|x: T| pushed.to_set().contains(x) <==> items.to_set().insert(item).contains(
        x,
    ) by {
        if pushed.contains(x) {
            let i = choose|i: int| 0 <= i < pushed.len() && pushed[i] == x;
            if i < items.len() {
                assert(items[i] == x);
            }
        }
        if items.contains(x) {
            let i = choose|i: int| 0 <= i < items.len() && items[i] == x;
            assert(pushed[i] == x);
        }
        if x == item {
            assert(pushed[items.len() as int] == x);
        }
    }
    assert(pushed.to_set() =~= items.to_set().insert(item));
    if !items.contains(item) && items.no_duplicates() {
        assert forall|i: int, j: int| 0 <= i < j < pushed.len() implies pushed[i] != pushed[j] by {
            if j == items.len() {
                assert(items[i] == pushed[i]);
            } else {
                assert(items[i] == pushed[i] && items[j] == pushed[j]);
            }
        }
    }
}

/// What a sequence without a double holds after the item at a place was
/// taken out.
pub proof fn lemma_remove_to_set<T>(items: Seq<T>, at: int)
    requires
        0 <= at < items.len(),
        items.no_duplicates(),
    ensures
        items.remove(at).to_set() == items.to_set().remove(items[at]),
        items.remove(at).no_duplicates(),
        !items.remove(at).contains(items[at]),
{
    let rest = items.remove(at);
    assert forall|i: int| 0 <= i < rest.len() implies #[trigger] rest[i] == items[if i < at {
        i
    } else {
        i + 1
    }] by {}
    assert forall|x: T| rest.to_set().contains(x) <==> items.to_set().remove(items[at]).contains(
        x,
    ) by {
        if rest.contains(x) {
            let i = choose|i: int| 0 <= i < rest.len() && rest[i] == x;
            let a = if i < at {
                i
            } else {
                i + 1
            };
            assert(items[a] == x);
        }
        if items.contains(x) && x != items[at] {
            let i = choose|i: int| 0 <= i < items.len() && items[i] == x;
            let a = if i < at {
                i
            } else {
                i - 1
            };
            assert(rest[a] == x);
        }
    }
    assert(rest.to_set() =~= items.to_set().remove(items[at]));
    assert forall|i: int, j: int| 0 <= i < j < rest.len() implies rest[i] != rest[j] by {
        let a = if i < at {
            i
        } else {
            i + 1
        };
        let b = if j < at {
            j
        } else {
            j + 1
        };
        assert(rest[i] == items[a] && rest[j] == items[b]);
    }
    if rest.contains(items[at]) {
        let i = choose|i: int| 0 <= i < rest.len() && rest[i] == items[at];
        let a = if i < at {
            i
        } else {
            i + 1
        };
        assert(items[a] == items[at]);
    }
}

/// What a sequence without a double holds after an item that it did not
/// hold was put in at a place.
pub proof fn lemma_insert_to_set<T>(items: Seq<T>, at: int, item: T)
    requires
        0 <= at <= items.len(),
        items.no_duplicates(),
        !items.contains(item),
    ensures
        items.insert(at, item).to_set() == items.to_set().insert(item),
        items.insert(at, item).no_duplicates(),
{
    let all = items.insert(at, item);
    assert forall|i: int, j: int| 0 <= i < j < all.len() implies all[i] != all[j] by {
        let a = if i < at {
            i
        } else {
            i - 1
        };
        let b = if j < at {
            j
        } else {
            j - 1
        };
        if i == at {
            assert(all[j] == items[b]);
            assert(items.contains(items[b]));
        } else if j == at {
            assert(all[i] == items[a]);
            assert(items.contains(items[a]));
        } else {
            assert(all[i] == items[a] && all[j] == items[b]);
        }
    }
    assert(all.remove(at) =~= items);
    assert(all[at] == item);
    lemma_remove_to_set(all, at);
    assert(all.contains(item));
    assert(all.to_set() =~= items.to_set().insert(item));
}

/// What a sequence holds after an item was put in at a place.
pub proof fn lemma_insert_anywhere_to_set<T>(items: Seq<T>, at: int, item: T)
    requires
        0 <= at <= items.len(),
    ensures
        items.insert(at, item).to_set() == items.to_set().insert(item),
{
    let all = items.insert(at, item);
    assert forall|x: T| all.to_set().contains(x) <==> items.to_set().insert(item).contains(x) by {
        if all.contains(x) {
            let i = choose|i: int| 0 <= i < all.len() && all[i] == x;
            if i < at {
                assert(items[i] == x);
            } else if i > at {
                assert(items[i - 1] == x);
            }
        }
        if items.contains(x) {
            let i = choose|i: int| 0 <= i < items.len() && items[i] == x;
            if i < at {
                assert(all[i] == x);
            } else {
                assert(all[i + 1] == x);
            }
        }
        if x == item {
            assert(all[at] == x);
        }
    }
    assert(all.to_set() =~= items.to_set().insert(item));
}

} // verus!
