//! What the library's own stores keep, as a caller sees it: each law speaks of what calls are given
//! and what they give back.

use vstd::prelude::*;

use crate::capture::Capture;
use crate::ledger::{total_charge, Ledger};
use crate::table::Table;
use crate::value::Value;

verus! {

/// A new table is empty; what is put under a key is read there, and every other key reads as before;
/// a new key goes last.
pub proof fn law_table_keeps_what_is_put<V: View>(
    fresh: Table<V>,
    table: &mut Table<V>,
    key: &str,
    value: V,
    other: Seq<char>,
)
    requires
        call_ensures(Table::<V>::new, (), fresh),
        call_ensures(Table::<V>::insert, (table, key, value), ()),
    ensures
        !fresh@.dom().contains(other),
        fresh.order().len() == 0,
        final(table)@.dom().contains(key@) && final(table)@[key@] == value@,
        other != key@ ==> final(table)@.dom().contains(other) == old(table)@.dom().contains(other),
        other != key@ && old(table)@.dom().contains(other) ==> final(table)@[other]
            == old(table)@[other],
        old(table)@.dom().contains(key@) ==> final(table).order() == old(table).order(),
        !old(table)@.dom().contains(key@) ==> final(table).order()
            == old(table).order() + seq![key@],
{
    if !old(table)@.dom().contains(key@) {
        assert(final(table).order() =~= old(table).order() + seq![key@]);
    }
}

/// What is taken out is what was there, and every other key stays. The first to come is the first to
/// be taken. A table that is cleared is empty.
pub proof fn law_table_gives_what_it_kept<V: View>(
    table: &mut Table<V>,
    key: &str,
    removed: Option<V>,
    drained: &mut Table<V>,
    first: Option<(String, V)>,
    cleared: &mut Table<V>,
    other: Seq<char>,
)
    requires
        call_ensures(Table::<V>::remove, (table, key), removed),
        call_ensures(Table::<V>::take_first, (drained,), first),
        call_ensures(Table::<V>::clear, (cleared,), ()),
    ensures
        (removed is Some) == old(table)@.dom().contains(key@),
        removed is Some ==> removed->0@ == old(table)@[key@],
        !final(table)@.dom().contains(key@),
        !old(table).order().contains(key@) ==> final(table).order() == old(table).order(),
        old(table).order().contains(key@) ==> exists|i: int|
            0 <= i < old(table).order().len() && old(table).order()[i] == key@
                && final(table).order() == #[trigger] old(table).order().remove(i),
        other != key@ ==> final(table)@.dom().contains(other) == old(table)@.dom().contains(other),
        other != key@ && old(table)@.dom().contains(other) ==> final(table)@[other]
            == old(table)@[other],
        (first is Some) == (old(drained).order().len() > 0),
        first is Some ==> ({
            let (name, value) = first->0;
            &&& name@ == old(drained).order()[0]
            &&& value@ == old(drained)@[name@]
            &&& final(drained).order() == old(drained).order().skip(1)
            &&& !final(drained)@.dom().contains(name@)
            &&& other != name@ ==> final(drained)@.dom().contains(other)
                == old(drained)@.dom().contains(other)
            &&& other != name@ && old(drained)@.dom().contains(other) ==> final(drained)@[other]
                == old(drained)@[other]
        }),
        first is None ==> final(drained)@ == old(drained)@,
        !final(cleared)@.dom().contains(other),
        final(cleared).order().len() == 0,
{
    if old(table).order().contains(key@) {
        let order = old(table).order();
        let i = choose|i: int|
            0 <= i < order.len() && #[trigger] order[i] == key@ && final(table).order()
                == order.remove(i);
        assert(final(table).order() == order.remove(i));
    }
    if first is Some {
        assert(old(drained).order().skip(1) =~= old(drained).order().drop_first());
    }
}

/// A table reads as what it holds: each key once, in the order in which they came.
pub proof fn law_table_reads_what_it_holds<V: View>(
    table: Table<V>,
    key: &str,
    found: Option<&V>,
    contained: bool,
    len: usize,
    empty: bool,
    index: usize,
    entry: (&String, &V),
    keys: Vec<String>,
)
    requires
        call_ensures(Table::<V>::get, (&table, key), found),
        call_ensures(Table::<V>::contains_key, (&table, key), contained),
        call_ensures(Table::<V>::len, (&table,), len),
        call_ensures(Table::<V>::is_empty, (&table,), empty),
        index < table.order().len(),
        call_ensures(Table::<V>::entry, (&table, index), entry),
        call_ensures(Table::<V>::keys, (&table,), keys),
    ensures
        (found is Some) == table@.dom().contains(key@),
        found is Some ==> found->0@ == table@[key@],
        contained == table@.dom().contains(key@),
        len == table@.dom().len(),
        empty == (len == 0),
        entry.0@ == table.order()[index as int],
        entry.1@ == table@[entry.0@],
        keys@.len() == len,
        forall|i: int| 0 <= i < len ==> table@.dom().contains((#[trigger] keys@[i])@),
        forall|i: int, j: int| 0 <= i < j < len
            ==> (#[trigger] keys@[i])@ != (#[trigger] keys@[j])@,
        contained ==> exists|i: int| 0 <= i < len && (#[trigger] keys@[i])@ == key@,
{
    assert forall|i: int| 0 <= i < len implies table@.dom().contains((#[trigger] keys@[i])@) by {
        assert(table.order()[i] == keys@[i]@);
        assert(table.order().to_set().contains(table.order()[i]));
    }
    assert(table@.dom().contains(table.order()[index as int])) by {
        assert(table.order().to_set().contains(table.order()[index as int]));
    }
    if contained {
        assert(table.order().to_set().contains(key@));
        let i = choose|i: int| 0 <= i < table.order().len() && table.order()[i] == key@;
        assert(keys@[i]@ == key@);
    }
    assert(len > 0);
    assert(!empty);
}

/// A ledger gives its items and their charges back in the order in which they came, and knows what
/// they are charged together.
pub proof fn law_ledger_is_a_queue<T: View>(
    fresh: Ledger<T>,
    ledger: &mut Ledger<T>,
    item: T,
    charge: usize,
    queue: &mut Ledger<T>,
    popped: Option<(T, usize)>,
    read: Ledger<T>,
    len: usize,
    bytes: usize,
    index: usize,
    shown: &T,
)
    requires
        call_ensures(Ledger::<T>::new, (), fresh),
        call_ensures(Ledger::<T>::push, (ledger, item, charge), ()),
        call_ensures(Ledger::<T>::pop, (queue,), popped),
        call_ensures(Ledger::<T>::len, (&read,), len),
        call_ensures(Ledger::<T>::bytes, (&read,), bytes),
        index < read@.len(),
        call_ensures(Ledger::<T>::item, (&read, index), shown),
    ensures
        fresh@.len() == 0,
        final(ledger)@ == old(ledger)@ + seq![(item@, charge as nat)],
        (popped is Some) == (old(queue)@.len() > 0),
        popped is Some ==> old(queue)@
            == seq![((popped->0).0@, (popped->0).1 as nat)] + final(queue)@,
        popped is None ==> final(queue)@ == old(queue)@,
        len == read@.len(),
        bytes == total_charge(read@),
        shown@ == read@[index as int].0,
{
    assert(final(ledger)@ =~= old(ledger)@ + seq![(item@, charge as nat)]);
    if popped is Some {
        assert(old(queue)@ =~= seq![old(queue)@[0]] + final(queue)@);
    }
}

/// A capture is empty at first, keeps what is captured last, and shows every value in the order in
/// which it came.
pub proof fn law_capture_shows_what_it_took(
    fresh: Capture,
    capture: &mut Capture,
    value: Value,
    charge: usize,
    read: Capture,
    len: usize,
    bytes: usize,
    shown: Value,
    i: int,
)
    requires
        call_ensures(Capture::new, (), fresh),
        call_ensures(Capture::push, (capture, value, charge), ()),
        call_ensures(Capture::len, (&read,), len),
        call_ensures(Capture::bytes, (&read,), bytes),
        call_ensures(Capture::as_value, (&read,), shown),
    ensures
        fresh@.len() == 0,
        final(capture)@ == old(capture)@ + seq![(value@, charge as nat)],
        len == read@.len() && len <= 64,
        bytes == total_charge(read@) && bytes <= 1048576,
        shown@ is Arr && shown@->Arr_0.len() == read@.len(),
        0 <= i < read@.len() ==> shown@->Arr_0[i] == read@[i].0,
{
    assert(final(capture)@ =~= old(capture)@ + seq![(value@, charge as nat)]);
}

} // verus!
