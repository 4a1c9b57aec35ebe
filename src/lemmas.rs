use vstd::prelude::*;

use vstd::arithmetic::div_mod::{
    lemma_add_mod_noop, lemma_mod_self_0, lemma_small_mod, lemma_sub_mod_noop,
};

use crate::id::{id_of_serial, id_space, next_id};
use crate::toast::{lemma_popup_wf, item_of, live_at, id_differs, ToastInfo, ToastManagerItem, ToastState};

verus! {

/// The state after inserting `infos[k]` at time `times[k]`, for each `k` in turn.
pub open spec fn popups(s: ToastState, infos: Seq<ToastInfo>, times: Seq<i64>) -> ToastState
    decreases infos.len(),
{
    if infos.len() == 0 {
        s
    } else {
        popups(s, infos.drop_last(), times.drop_last()).popup(infos.last(), times.last())
    }
}

/// The identifiers returned by those insertions, in order.
pub open spec fn popup_ids(s: ToastState, infos: Seq<ToastInfo>, times: Seq<i64>) -> Seq<usize>
    decreases infos.len(),
{
    if infos.len() == 0 {
        Seq::empty()
    } else {
        let (i, t) = (infos.drop_last(), times.drop_last());
        popup_ids(s, i, t).push(popups(s, i, t).cursor)
    }
}

/// The records created by those insertions, in order.
pub open spec fn popup_records(s: ToastState, infos: Seq<ToastInfo>, times: Seq<i64>) -> Seq<
    (usize, ToastManagerItem),
>
    decreases infos.len(),
{
    if infos.len() == 0 {
        Seq::empty()
    } else {
        let (i, t) = (infos.drop_last(), times.drop_last());
        popup_records(s, i, t).push((popups(s, i, t).cursor, item_of(infos.last(), times.last())))
    }
}

/// The state after a sweep at each time of `times`, in turn.
pub open spec fn sweeps(s: ToastState, times: Seq<i64>) -> ToastState
    decreases times.len(),
{
    if times.len() == 0 {
        s
    } else {
        sweeps(s, times.drop_last()).swept(times.last())
    }
}

proof fn lemma_popups_shape(s: ToastState, infos: Seq<ToastInfo>, times: Seq<i64>)
    requires
        infos.len() == times.len(),
    ensures
        popups(s, infos, times).capacity == s.capacity,
        popups(s, infos, times).cursor as int == (s.cursor + infos.len()) % id_space(),
        popup_ids(s, infos, times).len() == infos.len(),
        popup_records(s, infos, times).len() == infos.len(),
        forall|k: int|
            0 <= k < infos.len() ==> #[trigger] popup_ids(s, infos, times)[k] as int == (s.cursor
                + k) % id_space() && popup_records(s, infos, times)[k].0 == popup_ids(
                s,
                infos,
                times,
            )[k],
    decreases infos.len(),
{
    let m = id_space();
    if infos.len() == 0 {
        lemma_small_mod(s.cursor as nat, m as nat);
    } else {
        let (i, t) = (infos.drop_last(), times.drop_last());
        lemma_popups_shape(s, i, t);
        let c = popups(s, i, t).cursor;
        let x = s.cursor + i.len();
        lemma_add_mod_noop(x, 1, m);
        lemma_small_mod(1, m as nat);
        if c == usize::MAX {
            assert((c + 1) % m == 0) by {
                lemma_small_mod(0, m as nat);
                assert(c + 1 == m);
                lemma_mod_self_0(m);
            }
        } else {
            lemma_small_mod((c + 1) as nat, m as nat);
        }
        assert(next_id(c) as int == (x + 1) % m);
        assert forall|k: int| 0 <= k < infos.len() implies #[trigger] popup_ids(
            s,
            infos,
            times,
        )[k] as int == (s.cursor + k) % m && popup_records(s, infos, times)[k].0 == popup_ids(
            s,
            infos,
            times,
        )[k] by {
            if k < i.len() {
                assert(popup_ids(s, i, t)[k] as int == (s.cursor + k) % m);
            }
        }
    }
}

/// Consecutive insertions hand out pairwise distinct identifiers, as long as
/// they do not run through the whole identifier space more than once.
pub proof fn lemma_popup_ids_distinct(s: ToastState, infos: Seq<ToastInfo>, times: Seq<i64>)
    requires
        infos.len() == times.len(),
        infos.len() <= id_space(),
    ensures
        forall|a: int, b: int|
            0 <= a < b < infos.len() ==> popup_ids(s, infos, times)[a] != popup_ids(
                s,
                infos,
                times,
            )[b],
{
    let m = id_space();
    lemma_popups_shape(s, infos, times);
    assert forall|a: int, b: int| 0 <= a < b < infos.len() implies popup_ids(
        s,
        infos,
        times,
    )[a] != popup_ids(s, infos, times)[b] by {
        let ids = popup_ids(s, infos, times);
        assert(ids[a] as int == (s.cursor + a) % m);
        assert(ids[b] as int == (s.cursor + b) % m);
        lemma_sub_mod_noop(s.cursor + b, s.cursor + a, m);
        lemma_small_mod((b - a) as nat, m as nat);
        lemma_small_mod(0, m as nat);
    }
}

/// Whatever is inserted, a store that starts within its capacity stays within it.
pub proof fn lemma_popups_within_capacity(s: ToastState, infos: Seq<ToastInfo>, times: Seq<i64>)
    requires
        s.wf(),
    ensures
        popups(s, infos, times).wf(),
        popups(s, infos, times).capacity == s.capacity,
    decreases infos.len(),
{
    if infos.len() > 0 {
        lemma_popups_within_capacity(s, infos.drop_last(), times.drop_last());
        lemma_popup_wf(popups(s, infos.drop_last(), times.drop_last()), infos.last(), times.last());
    }
}

/// Starting from an empty store, the records kept after a run of insertions
/// are the last ones created, as many as the capacity allows, oldest first.
pub proof fn lemma_popups_keep_newest(s: ToastState, infos: Seq<ToastInfo>, times: Seq<i64>)
    requires
        s.items.len() == 0,
        infos.len() == times.len(),
    ensures
        ({
            let n = infos.len() as int;
            let kept = if n <= s.capacity {
                n
            } else {
                s.capacity as int
            };
            popups(s, infos, times).items == popup_records(s, infos, times).subrange(n - kept, n)
        }),
    decreases infos.len(),
{
    let n = infos.len() as int;
    if n == 0 {
        assert(popup_records(s, infos, times).subrange(0, 0) =~= Seq::empty());
    } else {
        let (i, t) = (infos.drop_last(), times.drop_last());
        lemma_popups_keep_newest(s, i, t);
        lemma_popups_shape(s, i, t);
        let recs = popup_records(s, infos, times);
        let prev = popup_records(s, i, t);
        assert(recs == prev.push(recs[n - 1]));
        let kept = if n - 1 <= s.capacity {
            n - 1
        } else {
            s.capacity as int
        };
        let grown = popups(s, i, t).items.push(recs[n - 1]);
        assert(grown =~= recs.subrange(n - 1 - kept, n));
        if grown.len() > s.capacity {
            assert(grown.drop_first() =~= recs.subrange(n - s.capacity, n));
        }
    }
}

/// With capacity `c`, after `c + 1` insertions into an empty store the first
/// record has been evicted and the other `c` remain, in insertion order.
pub proof fn lemma_fifo_eviction(s: ToastState, infos: Seq<ToastInfo>, times: Seq<i64>)
    requires
        s.wf(),
        s.items.len() == 0,
        infos.len() == times.len(),
        infos.len() == s.capacity + 1,
    ensures
        popups(s, infos, times).items == popup_records(s, infos, times).drop_first(),
        !popups(s, infos, times).items.contains(popup_records(s, infos, times)[0]),
{
    let recs = popup_records(s, infos, times);
    let items = popups(s, infos, times).items;
    lemma_popups_keep_newest(s, infos, times);
    lemma_popups_shape(s, infos, times);
    assert(items =~= recs.drop_first());
    lemma_popup_ids_distinct(s, infos, times);
    if items.contains(recs[0]) {
        let k = choose|k: int| 0 <= k < items.len() && items[k] == recs[0];
        assert(items[k] == recs[k + 1]);
        assert(popup_ids(s, infos, times)[0] != popup_ids(s, infos, times)[k + 1]);
    }
}

/// A record inserted at `t0` with a time to live of `d` seconds is kept by a
/// sweep at time `t` exactly when `t < t0 + 1000 * d` (times in milliseconds); right after its insertion it is
/// stored, unless the capacity is zero.
pub proof fn lemma_expiry(s: ToastState, id: usize, info: ToastInfo, t0: i64, t: i64)
    requires
        info.hide_after is Some,
    ensures
        s.capacity > 0 && s.wf() ==> s.popup(info, t0).items.contains((s.cursor, item_of(info, t0))),
        s.items.contains((id, item_of(info, t0))) ==> (s.swept(t).items.contains(
            (id, item_of(info, t0)),
        ) <==> t < t0 + info.hide_after->Some_0 * 1000),
{
    let rec = (id, item_of(info, t0));
    let grown = s.items.push((s.cursor, item_of(info, t0)));
    if s.capacity > 0 && s.wf() {
        let items = s.popup(info, t0).items;
        assert(items[items.len() - 1] == grown[grown.len() - 1]);
    }
    if s.items.contains(rec) {
        let kept = s.items.filter(live_at(t));
        if t < t0 + info.hide_after->Some_0 * 1000 {
            let k = choose|k: int| 0 <= k < s.items.len() && s.items[k] == rec;
            s.items.lemma_filter_contains(live_at(t), k);
        }
        if kept.contains(rec) {
            let k = choose|k: int| 0 <= k < kept.len() && kept[k] == rec;
            s.items.lemma_filter_pred(live_at(t), k);
        }
    }
}

/// A record inserted without a time to live survives any number of sweeps.
pub proof fn lemma_permanence(s: ToastState, id: usize, info: ToastInfo, t0: i64, times: Seq<i64>)
    requires
        info.hide_after is None,
        s.items.contains((id, item_of(info, t0))),
    ensures
        sweeps(s, times).items.contains((id, item_of(info, t0))),
    decreases times.len(),
{
    if times.len() > 0 {
        lemma_permanence(s, id, info, t0, times.drop_last());
        let prev = sweeps(s, times.drop_last()).items;
        let k = choose|k: int| 0 <= k < prev.len() && prev[k] == (id, item_of(info, t0));
        prev.lemma_filter_contains(live_at(times.last()), k);
    }
}

/// Removing `id` drops exactly the records with that identifier and keeps every
/// other record, in its order.
pub proof fn lemma_remove_exact(s: ToastState, id: usize)
    ensures
        forall|e: (usize, ToastManagerItem)|
            #[trigger] s.removed(id).items.contains(e) <==> (s.items.contains(e) && e.0 != id),
        s.removed(id).cursor == s.cursor,
        s.removed(id).capacity == s.capacity,
{
    let keep = id_differs(id);
    let kept = s.items.filter(keep);
    assert forall|e: (usize, ToastManagerItem)| #[trigger]
        kept.contains(e) <==> (s.items.contains(e) && e.0 != id) by {
        if kept.contains(e) {
            s.items.lemma_filter_contains_rev(keep, e);
            let k = choose|k: int| 0 <= k < kept.len() && kept[k] == e;
            s.items.lemma_filter_pred(keep, k);
        }
        if s.items.contains(e) && e.0 != id {
            let k = choose|k: int| 0 <= k < s.items.len() && s.items[k] == e;
            s.items.lemma_filter_contains(keep, k);
        }
    }
}

/// Two insertions whose issue counts `i < j` lie less than the size of the
/// identifier space apart receive distinct identifiers, whatever removals,
/// sweeps and clears ran between them (those leave the count unchanged).
pub proof fn lemma_issued_ids_distinct(i: nat, j: nat)
    requires
        i < j < i + id_space(),
    ensures
        id_of_serial(i) != id_of_serial(j),
{
    let m = id_space();
    lemma_sub_mod_noop(1 + j as int, 1 + i as int, m);
    lemma_small_mod((j - i) as nat, m as nat);
    lemma_small_mod(0, m as nat);
}

/// While fewer identifiers than the identifier space holds have been handed
/// out, no two stored records share an identifier.
pub proof fn lemma_stored_ids_distinct(s: ToastState)
    requires
        s.wf(),
        s.issued <= id_space(),
    ensures
        forall|a: int, b: int|
            0 <= a < b < s.items.len() ==> s.items[a].0 != s.items[b].0,
{
    let m = id_space();
    assert forall|a: int, b: int| 0 <= a < b < s.items.len() implies s.items[a].0
        != s.items[b].0 by {
        let (x, y) = (s.serials[a], s.serials[b]);
        assert(x < y < s.issued);
        lemma_sub_mod_noop(1 + y as int, 1 + x as int, m);
        lemma_small_mod((y - x) as nat, m as nat);
        lemma_small_mod(0, m as nat);
    }
}

/// While the cursor has not wrapped, stored identifiers strictly increase in
/// insertion order, so the record that eviction drops (the first) holds the
/// smallest identifier.
pub proof fn lemma_stored_ids_ascending(s: ToastState)
    requires
        s.wf(),
        s.issued < id_space(),
    ensures
        forall|a: int, b: int|
            0 <= a < b < s.items.len() ==> s.items[a].0 < s.items[b].0,
        forall|k: int| 0 <= k < s.items.len() ==> s.items[0].0 <= #[trigger] s.items[k].0,
{
    let m = id_space();
    assert forall|k: int| 0 <= k < s.items.len() implies #[trigger] s.items[k].0 as int == 1
        + s.serials[k] by {
        assert(s.serials[k] < s.issued);
        lemma_small_mod((1 + s.serials[k]) as nat, m as nat);
    }
    assert forall|a: int, b: int| 0 <= a < b < s.items.len() implies s.items[a].0
        < s.items[b].0 by {
        assert(s.items[a].0 as int == 1 + s.serials[a]);
        assert(s.items[b].0 as int == 1 + s.serials[b]);
    }
    assert forall|k: int| 0 <= k < s.items.len() implies s.items[0].0 <= #[trigger] s.items[k].0 by {
        if k > 0 {
            assert(s.items[0].0 as int == 1 + s.serials[0]);
            assert(s.items[k].0 as int == 1 + s.serials[k]);
        }
    }
}

} // verus!
