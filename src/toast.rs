use vstd::prelude::*;

use crate::id::{id_space, id_of_serial, lemma_next_id_of_serial, next_id, ID};

verus! {

/// The screen corner a toast is anchored to.
#[derive(Debug, Clone, Copy, PartialEq, Eq, Structural)]
pub enum Position {
    BottomLeft,
    BottomRight,
    TopLeft,
    TopRight,
}

/// A presentational tag shown beside a toast.
#[derive(Debug, Clone, Copy, PartialEq, Eq, Structural)]
pub enum Icon {
    Success,
    Warning,
    Error,
    Info,
}

/// What a toast shows. `hide_after` is a time to live in seconds; `None` keeps
/// the toast until it is dismissed, cleared or evicted.
#[derive(Debug, Clone)]
pub struct ToastInfo {
    pub heading: Option<String>,
    pub context: String,
    pub allow_toast_close: bool,
    pub position: Position,
    pub icon: Option<Icon>,
    pub hide_after: Option<usize>,
}

/// A stored toast: its content and the absolute time (in milliseconds since
/// the Unix epoch) at which it
/// expires, if it ever does.
#[derive(Debug, Clone)]
pub struct ToastManagerItem {
    pub info: ToastInfo,
    pub hide_after: Option<i128>,
}

/// The view of an optional owned string as optional text.
pub open spec fn opt_text(s: Option<String>) -> Option<Seq<char>> {
    match s {
        Some(t) => Some(t@),
        None => None,
    }
}

/// The absolute expiry, in milliseconds, of a toast with a time to live of
/// `ttl` seconds inserted at `now` (milliseconds).
pub open spec fn expiry_of(ttl: Option<usize>, now: i64) -> Option<i128> {
    match ttl {
        Some(d) => Some((now + d * 1000) as i128),
        None => None,
    }
}

/// The record stored for `info` when it is inserted at time `now`.
pub open spec fn item_of(info: ToastInfo, now: i64) -> ToastManagerItem {
    ToastManagerItem { info, hide_after: expiry_of(info.hide_after, now) }
}

/// Whether a record is still shown at time `now`: it never expires, or its
/// expiry lies after `now`.
pub open spec fn is_live(item: ToastManagerItem, now: i64) -> bool {
    match item.hide_after {
        Some(t) => now < t,
        None => true,
    }
}

/// Holds of the records whose identifier is not `id`.
pub open spec fn id_differs(id: usize) -> spec_fn((usize, ToastManagerItem)) -> bool {
    |e: (usize, ToastManagerItem)| e.0 != id
}

/// Holds of the records still live at time `now`.
pub open spec fn live_at(now: i64) -> spec_fn((usize, ToastManagerItem)) -> bool {
    |e: (usize, ToastManagerItem)| is_live(e.1, now)
}

/// The serial numbers of the records of `items` that `pred` keeps, where
/// `serials[k]` belongs to `items[k]`.
pub open spec fn kept_serials(
    items: Seq<(usize, ToastManagerItem)>,
    serials: Seq<nat>,
    pred: spec_fn((usize, ToastManagerItem)) -> bool,
) -> Seq<nat>
    decreases items.len(),
{
    if items.len() == 0 {
        Seq::empty()
    } else {
        let rest = kept_serials(items.drop_last(), serials.drop_last(), pred);
        if pred(items.last()) {
            rest.push(serials.last())
        } else {
            rest
        }
    }
}

/// The abstract state of a manager: the stored records in insertion order, the
/// capacity, the identifier that the next insertion receives, how many
/// identifiers have been handed out, and for each stored record how many had
/// been handed out before its own (its serial number).
pub struct ToastState {
    pub items: Seq<(usize, ToastManagerItem)>,
    pub capacity: nat,
    pub cursor: usize,
    pub issued: nat,
    pub serials: Seq<nat>,
}

impl ToastState {
    /// The store holds no more records than its capacity, which fits in a `u8`;
    /// the cursor is the identifier after `issued` hand-outs; every record was
    /// handed out earlier, under the identifier its serial number gives; and
    /// serial numbers strictly increase along the store, so the store is in
    /// the order of insertion.
    pub open spec fn wf(self) -> bool {
        &&& self.items.len() <= self.capacity
        &&& self.capacity <= u8::MAX
        &&& self.serials.len() == self.items.len()
        &&& self.cursor as int == id_of_serial(self.issued)
        &&& forall|k: int|
            0 <= k < self.items.len() ==> #[trigger] self.serials[k] < self.issued
                && self.items[k].0 as int == id_of_serial(self.serials[k])
        &&& forall|a: int, b: int|
            0 <= a < b < self.items.len() ==> self.serials[a] < self.serials[b]
    }

    /// Insert `info` at time `now` under the current cursor, then evict the
    /// oldest record if the store has grown past its capacity.
    pub open spec fn popup(self, info: ToastInfo, now: i64) -> ToastState {
        let grown = self.items.push((self.cursor, item_of(info, now)));
        let born = self.serials.push(self.issued);
        let over = grown.len() > self.capacity;
        ToastState {
            items: if over {
                grown.drop_first()
            } else {
                grown
            },
            capacity: self.capacity,
            cursor: next_id(self.cursor),
            issued: self.issued + 1,
            serials: if over {
                born.drop_first()
            } else {
                born
            },
        }
    }

    /// Keep the records that `pred` holds of.
    pub open spec fn kept(self, pred: spec_fn((usize, ToastManagerItem)) -> bool) -> ToastState {
        ToastState {
            items: self.items.filter(pred),
            capacity: self.capacity,
            cursor: self.cursor,
            issued: self.issued,
            serials: kept_serials(self.items, self.serials, pred),
        }
    }

    /// Drop every record with identifier `id`.
    pub open spec fn removed(self, id: usize) -> ToastState {
        self.kept(id_differs(id))
    }

    /// Drop every record that has expired at time `now`.
    pub open spec fn swept(self, now: i64) -> ToastState {
        self.kept(live_at(now))
    }

    /// Drop every record.
    pub open spec fn cleared(self) -> ToastState {
        ToastState {
            items: Seq::empty(),
            capacity: self.capacity,
            cursor: self.cursor,
            issued: self.issued,
            serials: Seq::empty(),
        }
    }
}

proof fn lemma_kept_serials(
    items: Seq<(usize, ToastManagerItem)>,
    serials: Seq<nat>,
    pred: spec_fn((usize, ToastManagerItem)) -> bool,
    issued: nat,
)
    requires
        serials.len() == items.len(),
        forall|k: int|
            0 <= k < items.len() ==> #[trigger] serials[k] < issued && items[k].0 as int
                == id_of_serial(serials[k]),
        forall|a: int, b: int| 0 <= a < b < items.len() ==> serials[a] < serials[b],
    ensures
        ({
            let kept = kept_serials(items, serials, pred);
            let f = items.filter(pred);
            &&& kept.len() == f.len()
            &&& forall|k: int|
                0 <= k < f.len() ==> #[trigger] kept[k] < issued && f[k].0 as int == id_of_serial(
                    kept[k],
                )
            &&& forall|a: int, b: int| 0 <= a < b < f.len() ==> kept[a] < kept[b]
            &&& items.len() > 0 ==> forall|k: int|
                0 <= k < f.len() ==> #[trigger] kept[k] <= serials[items.len() - 1]
        }),
    decreases items.len(),
{
    if items.len() > 0 {
        let (i, s) = (items.drop_last(), serials.drop_last());
        lemma_kept_serials(i, s, pred, issued);
        assert(items =~= i.push(items.last()));
        i.lemma_filter_push(items.last(), pred);
        let kept = kept_serials(items, serials, pred);
        let f = items.filter(pred);
        assert forall|k: int| 0 <= k < f.len() implies #[trigger] kept[k] <= serials[items.len()
            - 1] by {
            if k < i.filter(pred).len() {
                assert(kept[k] == kept_serials(i, s, pred)[k]);
                if i.len() > 0 {
                    assert(serials[i.len() - 1] < serials[items.len() - 1]);
                }
            }
        }
        assert forall|k: int| 0 <= k < f.len() implies #[trigger] kept[k] < issued && f[k].0 as int
            == id_of_serial(kept[k]) by {
            if k < i.filter(pred).len() {
                assert(kept[k] == kept_serials(i, s, pred)[k]);
                assert(f[k] == i.filter(pred)[k]);
                assert(i[k] == items[k]);
            } else {
                assert(serials[items.len() - 1] < issued);
            }
        }
        assert forall|a: int, b: int| 0 <= a < b < f.len() implies kept[a] < kept[b] by {
            if b < i.filter(pred).len() {
                assert(kept[a] == kept_serials(i, s, pred)[a]);
                assert(kept[b] == kept_serials(i, s, pred)[b]);
            } else {
                assert(kept[a] == kept_serials(i, s, pred)[a]);
                if i.len() > 0 {
                    assert(serials[i.len() - 1] < serials[items.len() - 1]);
                }
            }
        }
    }
}

/// Keeping the records that a predicate holds of keeps the store invariant.
pub proof fn lemma_kept_wf(s: ToastState, pred: spec_fn((usize, ToastManagerItem)) -> bool)
    requires
        s.wf(),
    ensures
        s.kept(pred).wf(),
{
    lemma_kept_serials(s.items, s.serials, pred, s.issued);
    s.items.lemma_filter_len(pred);
}

/// Inserting keeps the store invariant.
pub proof fn lemma_popup_wf(s: ToastState, info: ToastInfo, now: i64)
    requires
        s.wf(),
    ensures
        s.popup(info, now).wf(),
{
    lemma_next_id_of_serial(s.issued);
    let t = s.popup(info, now);
    let grown = s.items.push((s.cursor, item_of(info, now)));
    let born = s.serials.push(s.issued);
    assert forall|k: int| 0 <= k < grown.len() implies #[trigger] born[k] < s.issued + 1
        && grown[k].0 as int == id_of_serial(born[k]) by {
        if k < s.items.len() {
            assert(born[k] == s.serials[k]);
        }
    }
    if grown.len() > s.capacity {
        assert forall|k: int| 0 <= k < t.items.len() implies #[trigger] t.serials[k] < t.issued
            && t.items[k].0 as int == id_of_serial(t.serials[k]) by {
            assert(t.serials[k] == born[k + 1]);
            assert(t.items[k] == grown[k + 1]);
        }
        assert forall|a: int, b: int| 0 <= a < b < t.items.len() implies t.serials[a]
            < t.serials[b] by {
            assert(t.serials[a] == born[a + 1]);
            assert(t.serials[b] == born[b + 1]);
            if b + 1 < s.items.len() {
                assert(s.serials[a + 1] < s.serials[b + 1]);
            }
        }
    } else {
        assert forall|a: int, b: int| 0 <= a < b < t.items.len() implies t.serials[a]
            < t.serials[b] by {
            if b < s.items.len() {
                assert(s.serials[a] < s.serials[b]);
            }
        }
    }
}

/// Relies on chrono's `From<SystemTime> for DateTime<Utc>` and
/// `DateTime::timestamp_millis`: the system clock in milliseconds since the
/// Unix epoch, negative before it. Nothing is promised of the value.
#[verifier::external_body]
fn now_millis() -> (r: i64) {
    chrono::DateTime::<chrono::Utc>::from(std::time::SystemTime::now()).timestamp_millis()
}

impl ToastInfo {
    fn new(text: &str, heading: Option<&str>, position: Position, icon: Option<Icon>) -> (r: Self)
        ensures
            r.context@ == text@,
            opt_text(r.heading) == (match heading {
                Some(h) => Some(h@),
                None => None::<Seq<char>>,
            }),
            r.allow_toast_close,
            r.position == position,
            r.icon == icon,
            r.hide_after == Some(6usize),
    {
        let heading = match heading {
            Some(h) => Some(h.to_owned()),
            None => None,
        };
        ToastInfo {
            heading,
            context: text.to_owned(),
            allow_toast_close: true,
            position,
            icon,
            hide_after: Some(6),
        }
    }

    /// Plain text, bottom left, closable, shown for six seconds.
    pub fn simple(text: &str) -> (r: Self)
        ensures
            r.context@ == text@,
            r.heading is None,
            r.allow_toast_close,
            r.position == Position::BottomLeft,
            r.icon is None,
            r.hide_after == Some(6usize),
    {
        Self::new(text, None, Position::BottomLeft, None)
    }

    /// A success toast with a heading, bottom left, closable, shown for six seconds.
    pub fn success(text: &str, heading: &str) -> (r: Self)
        ensures
            r.context@ == text@,
            opt_text(r.heading) == Some(heading@),
            r.allow_toast_close,
            r.position == Position::BottomLeft,
            r.icon == Some(Icon::Success),
            r.hide_after == Some(6usize),
    {
        Self::new(text, Some(heading), Position::BottomLeft, Some(Icon::Success))
    }

    /// A warning toast with a heading, bottom left, closable, shown for six seconds.
    pub fn warning(text: &str, heading: &str) -> (r: Self)
        ensures
            r.context@ == text@,
            opt_text(r.heading) == Some(heading@),
            r.allow_toast_close,
            r.position == Position::BottomLeft,
            r.icon == Some(Icon::Warning),
            r.hide_after == Some(6usize),
    {
        Self::new(text, Some(heading), Position::BottomLeft, Some(Icon::Warning))
    }

    /// An info toast with a heading, bottom left, closable, shown for six seconds.
    pub fn info(text: &str, heading: &str) -> (r: Self)
        ensures
            r.context@ == text@,
            opt_text(r.heading) == Some(heading@),
            r.allow_toast_close,
            r.position == Position::BottomLeft,
            r.icon == Some(Icon::Info),
            r.hide_after == Some(6usize),
    {
        Self::new(text, Some(heading), Position::BottomLeft, Some(Icon::Info))
    }

    /// An error toast with a heading, bottom left, closable, shown for six seconds.
    pub fn error(text: &str, heading: &str) -> (r: Self)
        ensures
            r.context@ == text@,
            opt_text(r.heading) == Some(heading@),
            r.allow_toast_close,
            r.position == Position::BottomLeft,
            r.icon == Some(Icon::Error),
            r.hide_after == Some(6usize),
    {
        Self::new(text, Some(heading), Position::BottomLeft, Some(Icon::Error))
    }
}

/// A bounded store of toasts in insertion order, with its identifier cursor.
pub struct ToastManager {
    list: Vec<(usize, ToastManagerItem)>,
    maximum_toast: u8,
    id_manager: ID,
    issued: Ghost<nat>,
    serials: Ghost<Seq<nat>>,
}

impl View for ToastManager {
    type V = ToastState;

    closed spec fn view(&self) -> ToastState {
        ToastState {
            items: self.list@,
            capacity: self.maximum_toast as nat,
            cursor: self.id_manager@,
            issued: self.issued@,
            serials: self.serials@,
        }
    }
}

impl ToastManager {
    /// An empty manager that keeps at most `maximum_toast` toasts.
    pub fn new(maximum_toast: u8) -> (r: Self)
        ensures
            r@.items.len() == 0,
            r@.capacity == maximum_toast as nat,
            r@.cursor == 1,
            r@.issued == 0,
            r@.wf(),
    {
        proof {
            vstd::arithmetic::div_mod::lemma_small_mod(1, id_space() as nat);
        }
        ToastManager {
            list: Vec::new(),
            maximum_toast,
            id_manager: ID::new(),
            issued: Ghost(0),
            serials: Ghost(Seq::empty()),
        }
    }

    /// Inserts `info` as if the time were `now` (milliseconds since the Unix epoch)
    /// and returns its identifier; the oldest record leaves when the store
    /// would exceed its capacity.
    pub fn popup_at(&mut self, info: ToastInfo, now: i64) -> (r: usize)
        requires
            old(self)@.wf(),
        ensures
            r == old(self)@.cursor,
            r as int == id_of_serial(old(self)@.issued),
            final(self)@ == old(self)@.popup(info, now),
            final(self)@.wf(),
    {
        let ghost prev = self@;
        let toast_id = self.id_manager.add();
        let hide_after: Option<i128> = match info.hide_after {
            Some(d) => Some(now as i128 + d as i128 * 1000),
            None => None,
        };
        self.list.push((toast_id, ToastManagerItem { info, hide_after }));
        if self.list.len() > self.maximum_toast as usize {
            self.list.remove(0);
        }
        let ghost born = self.serials@.push(self.issued@);
        proof {
            let grown = prev.items.push((prev.cursor, item_of(info, now)));
            if grown.len() > prev.capacity {
                assert(self.list@ =~= grown.drop_first());
                self.serials = Ghost(born.drop_first());
            } else {
                assert(self.list@ =~= grown);
                self.serials = Ghost(born);
            }
            self.issued = Ghost(self.issued@ + 1);
            lemma_popup_wf(prev, info, now);
        }
        toast_id
    }

    /// Inserts `info` at the current time and returns its identifier.
    pub fn popup(&mut self, info: ToastInfo) -> (r: usize)
        requires
            old(self)@.wf(),
        ensures
            r == old(self)@.cursor,
            r as int == id_of_serial(old(self)@.issued),
            exists|now: i64| final(self)@ == old(self)@.popup(info, now),
            final(self)@.wf(),
    {
        let now = now_millis();
        self.popup_at(info, now)
    }

    /// Removes the record with identifier `id`; does nothing if there is none.
    pub fn remove(&mut self, id: usize)
        requires
            old(self)@.wf(),
        ensures
            final(self)@ == old(self)@.removed(id),
            final(self)@.wf(),
    {
        let ghost orig = self.list@;
        let ghost keep = id_differs(id);
        let mut i: usize = 0;
        let ghost mut j: int = 0;
        while i < self.list.len()
            invariant
                0 <= j <= orig.len(),
                keep == id_differs(id),
                i == orig.take(j).filter(keep).len(),
                self.list@ == orig.take(j).filter(keep) + orig.skip(j),
                self.maximum_toast == old(self).maximum_toast,
                self.id_manager@ == old(self).id_manager@,
                self.issued == old(self).issued,
                self.serials == old(self).serials,
                orig == old(self)@.items,
            decreases orig.len() - j,
        {
            let ghost done = orig.take(j).filter(keep);
            proof {
                assert(orig.take(j + 1) =~= orig.take(j).push(orig[j]));
                orig.take(j).lemma_filter_push(orig[j], keep);
                assert(self.list@[i as int] == orig[j]);
                assert(orig.skip(j) =~= seq![orig[j]] + orig.skip(j + 1));
            }
            if self.list[i].0 != id {
                i = i + 1;
                proof {
                    assert(orig.take(j + 1).filter(keep) == done.push(orig[j]));
                    assert(self.list@ =~= done.push(orig[j]) + orig.skip(j + 1));
                }
            } else {
                self.list.remove(i);
                proof {
                    assert(orig.take(j + 1).filter(keep) == done);
                    assert(self.list@ =~= done + orig.skip(j + 1));
                }
            }
            proof {
                j = j + 1;
            }
        }
        proof {
            assert(orig.skip(j).len() == 0);
            assert(orig.take(j) =~= orig);
            assert(self.list@ =~= orig.filter(keep));
            self.serials = Ghost(kept_serials(orig, old(self).serials@, keep));
            lemma_kept_wf(old(self)@, keep);
        }
    }

    /// Removes every record that has expired at time `now` (milliseconds since the
    /// Unix epoch), keeping the order of the others.
    pub fn sweep_expired(&mut self, now: i64)
        requires
            old(self)@.wf(),
        ensures
            final(self)@ == old(self)@.swept(now),
            final(self)@.wf(),
    {
        let ghost orig = self.list@;
        let ghost keep = live_at(now);
        let mut i: usize = 0;
        let ghost mut j: int = 0;
        while i < self.list.len()
            invariant
                0 <= j <= orig.len(),
                keep == live_at(now),
                i == orig.take(j).filter(keep).len(),
                self.list@ == orig.take(j).filter(keep) + orig.skip(j),
                self.maximum_toast == old(self).maximum_toast,
                self.id_manager@ == old(self).id_manager@,
                self.issued == old(self).issued,
                self.serials == old(self).serials,
                orig == old(self)@.items,
            decreases orig.len() - j,
        {
            let ghost done = orig.take(j).filter(keep);
            proof {
                assert(orig.take(j + 1) =~= orig.take(j).push(orig[j]));
                orig.take(j).lemma_filter_push(orig[j], keep);
                assert(self.list@[i as int] == orig[j]);
                assert(orig.skip(j) =~= seq![orig[j]] + orig.skip(j + 1));
            }
            let live = match self.list[i].1.hide_after {
                Some(t) => (now as i128) < t,
                None => true,
            };
            if live {
                i = i + 1;
                proof {
                    assert(orig.take(j + 1).filter(keep) == done.push(orig[j]));
                    assert(self.list@ =~= done.push(orig[j]) + orig.skip(j + 1));
                }
            } else {
                self.list.remove(i);
                proof {
                    assert(orig.take(j + 1).filter(keep) == done);
                    assert(self.list@ =~= done + orig.skip(j + 1));
                }
            }
            proof {
                j = j + 1;
            }
        }
        proof {
            assert(orig.skip(j).len() == 0);
            assert(orig.take(j) =~= orig);
            assert(self.list@ =~= orig.filter(keep));
            self.serials = Ghost(kept_serials(orig, old(self).serials@, keep));
            lemma_kept_wf(old(self)@, keep);
        }
    }

    /// Removes every record that has expired at the current time.
    pub fn sweep(&mut self)
        requires
            old(self)@.wf(),
        ensures
            exists|now: i64| final(self)@ == old(self)@.swept(now),
            final(self)@.wf(),
    {
        let now = now_millis();
        self.sweep_expired(now);
    }

    /// Removes every record.
    pub fn clear(&mut self)
        requires
            old(self)@.wf(),
        ensures
            final(self)@ == old(self)@.cleared(),
            final(self)@.wf(),
    {
        self.list.clear();
        proof {
            assert(self.list@ =~= Seq::<(usize, ToastManagerItem)>::empty());
            self.serials = Ghost(Seq::empty());
        }
    }

    /// The stored records in insertion order.
    pub fn snapshot(&self) -> (r: &Vec<(usize, ToastManagerItem)>)
        ensures
            r@ == self@.items,
    {
        &self.list
    }

    /// The most records the manager keeps.
    pub fn capacity(&self) -> (r: u8)
        ensures
            r as nat == self@.capacity,
    {
        self.maximum_toast
    }
}

impl Default for ToastManager {
    /// A manager that keeps at most six toasts.
    fn default() -> (r: Self)
        ensures
            r@.items.len() == 0,
            r@.capacity == 6,
            r@.cursor == 1,
            r@.issued == 0,
            r@.wf(),
    {
        Self::new(6)
    }
}

} // verus!
