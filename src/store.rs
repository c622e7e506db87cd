use vstd::prelude::*;

use crate::event::{
    date_field, event_field, fresh_id, is_event_id, organizer_field, record_map, pairs_view, record_fields, record_pairs, Event,
};
use crate::text::{slot_key, slot_key_text};

verus! {

/// The fields of one stored record, by name.
pub type FieldMap = Map<Seq<char>, Seq<char>>;

/// The store as the scans see it: slot number to record fields.
pub type StoreState = Map<nat, FieldMap>;

/// A slot is taken when its record has an `organizer` field.
pub open spec fn occupied(st: StoreState, n: nat) -> bool {
    st.contains_key(n) && st[n].contains_key(organizer_field())
}

/// `n` is the slot where a scan from the first slot stops.
pub open spec fn is_first_free(st: StoreState, n: nat) -> bool {
    &&& n >= 1
    &&& !occupied(st, n)
    &&& forall|m: nat| 1 <= m < n ==> occupied(st, m)
}

pub open spec fn has_first_free(st: StoreState) -> bool {
    exists|n: nat| is_first_free(st, n)
}

pub open spec fn first_free(st: StoreState) -> nat {
    choose|n: nat| is_first_free(st, n)
}

/// The store after one event is appended: its record goes to the first free slot.
pub open spec fn after_append(st: StoreState, rec: FieldMap) -> StoreState {
    st.insert(first_free(st), rec)
}

/// The store after the records of `recs` are appended one after another.
pub open spec fn after_appends(st: StoreState, recs: Seq<FieldMap>) -> StoreState
    decreases recs.len(),
{
    if recs.len() == 0 {
        st
    } else {
        after_append(after_appends(st, recs.drop_last()), recs.last())
    }
}

/// The records that a listing returns: every slot before the first free one, in order.
pub open spec fn listing(st: StoreState) -> Seq<FieldMap> {
    Seq::new((first_free(st) - 1) as nat, |i: int| st[(i + 1) as nat])
}

/// The store whose slots `1..=recs.len()` hold `recs`, in order, and nothing else.
pub open spec fn dense(recs: Seq<FieldMap>) -> StoreState {
    Map::new(|n: nat| 1 <= n <= recs.len(), |n: nat| recs[n - 1])
}

/// Every record carries the field that marks its slot as taken.
pub open spec fn all_marked(recs: Seq<FieldMap>) -> bool {
    forall|i: int| 0 <= i < recs.len() ==> (#[trigger] recs[i]).contains_key(organizer_field())
}

/// The search for a free slot while an event waits to be written.
pub struct AppendProbe {
    /// The slot to test next.
    pub slot: u64,
    /// The field/value pairs to write.
    pub record: Vec<(String, String)>,
}

/// What the append scan asks for after hearing whether a slot is taken.
pub enum AppendStep {
    /// Test the next slot.
    Probe(AppendProbe),
    /// Write `record` to `slot`, which was found free.
    Write { slot: u64, record: Vec<(String, String)> },
}

impl AppendProbe {
    /// A probe for `event` with the id `id`, starting at the first slot.
    pub fn with_id(event: &Event, id: String) -> (r: AppendProbe)
        ensures
            r.slot == 1,
            pairs_view(r.record@) == record_pairs(event.organizer@, event.name@, event.date@, id@),
    {
        AppendProbe { slot: 1, record: record_fields(event, id) }
    }

    /// A probe for `event` under a freshly drawn id, starting at the first slot.
    pub fn start(event: &Event) -> (r: AppendProbe)
        ensures
            r.slot == 1,
            exists|id: Seq<char>|
                is_event_id(id) && pairs_view(r.record@) == record_pairs(
                    event.organizer@,
                    event.name@,
                    event.date@,
                    id,
                ),
    {
        let id = fresh_id();
        let ghost idv = id@;
        let r = AppendProbe::with_id(event, id);
        assert(is_event_id(idv) && pairs_view(r.record@) == record_pairs(
            event.organizer@,
            event.name@,
            event.date@,
            idv,
        ));
        r
    }

    /// The key whose `organizer` field is to be tested.
    pub fn key(&self) -> (r: String)
        ensures
            r@ == slot_key_text(self.slot as nat),
    {
        slot_key(self.slot)
    }

    /// The next step once it is known whether the current slot is taken.
    pub fn on_exists(self, taken: bool) -> (r: AppendStep)
        requires
            taken ==> self.slot < u64::MAX,
        ensures
            taken ==> r == (AppendStep::Probe(AppendProbe { slot: (self.slot + 1) as u64, record: self.record })),
            !taken ==> r == (AppendStep::Write { slot: self.slot, record: self.record }),
    {
        if taken {
            AppendStep::Probe(AppendProbe { slot: self.slot + 1, record: self.record })
        } else {
            AppendStep::Write { slot: self.slot, record: self.record }
        }
    }
}

/// A listing in progress: the records read so far and the slot to test next.
pub struct ListScan {
    pub slot: u64,
    /// One reply per slot read, fields and values in turn.
    pub records: Vec<Vec<String>>,
}

/// What the listing asks for after hearing whether a slot is taken.
pub enum ListStep {
    /// Read the whole record of the current slot.
    Read,
    /// The listing is complete.
    Done,
}

impl ListScan {
    pub fn new() -> (r: ListScan)
        ensures
            r.slot == 1,
            r.records@.len() == 0,
    {
        ListScan { slot: 1, records: Vec::new() }
    }

    /// The key whose `organizer` field is to be tested, and whose record is read.
    pub fn key(&self) -> (r: String)
        ensures
            r@ == slot_key_text(self.slot as nat),
    {
        slot_key(self.slot)
    }

    pub fn on_exists(&self, taken: bool) -> (r: ListStep)
        ensures
            taken <==> r == ListStep::Read,
            !taken <==> r == ListStep::Done,
    {
        if taken {
            ListStep::Read
        } else {
            ListStep::Done
        }
    }

    /// Takes the record read from the current slot and moves to the next one.
    pub fn on_read(&mut self, reply: Vec<String>)
        requires
            old(self).slot < u64::MAX,
        ensures
            final(self).slot == old(self).slot + 1,
            final(self).records@ == old(self).records@.push(reply),
    {
        self.records.push(reply);
        self.slot = self.slot + 1;
    }

    pub fn finish(self) -> (r: Vec<Vec<String>>)
        ensures
            r@ == self.records@,
    {
        self.records
    }
}

proof fn lemma_first_free_unique(st: StoreState, a: nat, b: nat)
    requires
        is_first_free(st, a),
        is_first_free(st, b),
    ensures
        a == b,
{
    if a < b {
        assert(occupied(st, a));
    } else if b < a {
        assert(occupied(st, b));
    }
}

/// A scan from the first slot of the dense store of `recs` stops right after its last record.
pub proof fn lemma_dense_first_free(recs: Seq<FieldMap>)
    requires
        all_marked(recs),
    ensures
        has_first_free(dense(recs)),
        first_free(dense(recs)) == recs.len() + 1,
{
    let st = dense(recs);
    let k = recs.len() + 1;
    assert forall|m: nat| 1 <= m < k implies occupied(st, m) by {
        assert(recs[m - 1].contains_key(organizer_field()));
    }
    assert(is_first_free(st, k));
    lemma_first_free_unique(st, k, first_free(st));
}

/// After appends into an empty store, the taken slots are exactly `1..=k` for `k`
/// appends, and slot `n` holds the record of the `n`-th append.
pub proof fn lemma_appends_dense(recs: Seq<FieldMap>)
    requires
        all_marked(recs),
    ensures
        after_appends(Map::empty(), recs) == dense(recs),
        forall|n: nat| occupied(after_appends(Map::empty(), recs), n) <==> 1 <= n <= recs.len(),
    decreases recs.len(),
{
    if recs.len() == 0 {
        assert(after_appends(Map::empty(), recs) =~= dense(recs));
    } else {
        let prev = recs.drop_last();
        assert(all_marked(prev)) by {
            assert forall|i: int| 0 <= i < prev.len() implies (#[trigger] prev[i]).contains_key(
                organizer_field(),
            ) by {
                assert(prev[i] == recs[i]);
            }
        }
        lemma_appends_dense(prev);
        lemma_dense_first_free(prev);
        assert(after_appends(Map::empty(), recs) =~= dense(recs));
    }
    let st = after_appends(Map::empty(), recs);
    assert forall|n: nat| occupied(st, n) <==> 1 <= n <= recs.len() by {
        if 1 <= n <= recs.len() {
            assert(recs[n - 1].contains_key(organizer_field()));
        }
    }
}

/// After appends into an empty store, a listing returns the appended records
/// in the order of their appends: the `n`-th append stands at position `n`,
/// also after any later appends.
pub proof fn lemma_listing_order(recs: Seq<FieldMap>, later: Seq<FieldMap>)
    requires
        all_marked(recs + later),
    ensures
        listing(after_appends(Map::empty(), recs)) == recs,
        forall|i: int|
            0 <= i < recs.len() ==> #[trigger] listing(after_appends(Map::empty(), recs + later))[i]
                == recs[i],
{
    let all = recs + later;
    assert(all_marked(recs)) by {
        assert forall|i: int| 0 <= i < recs.len() implies (#[trigger] recs[i]).contains_key(
            organizer_field(),
        ) by {
            assert(all[i] == recs[i]);
        }
    }
    lemma_appends_dense(recs);
    lemma_dense_first_free(recs);
    assert(listing(after_appends(Map::empty(), recs)) =~= recs);
    lemma_appends_dense(all);
    lemma_dense_first_free(all);
    assert(listing(after_appends(Map::empty(), all)) =~= all);
}

/// An event appended after any earlier appends into an empty store comes back
/// from a listing with its organizer, name and date unchanged.
pub proof fn lemma_round_trip(
    earlier: Seq<FieldMap>,
    organizer: Seq<char>,
    name: Seq<char>,
    date: Seq<char>,
    id: Seq<char>,
)
    requires
        all_marked(earlier),
    ensures
        ({
            let shown = listing(after_appends(Map::empty(), earlier.push(record_map(organizer, name, date, id))));
            exists|k: int|
                0 <= k < shown.len() && #[trigger] shown[k][organizer_field()] == organizer
                    && shown[k][event_field()] == name && shown[k][date_field()] == date
        }),
{
    let recs = earlier.push(record_map(organizer, name, date, id));
    assert(all_marked(recs)) by {
        assert forall|i: int| 0 <= i < recs.len() implies (#[trigger] recs[i]).contains_key(
            organizer_field(),
        ) by {
            if i < earlier.len() {
                assert(recs[i] == earlier[i]);
            }
        }
    }
    lemma_listing_order(recs, Seq::empty());
    assert(recs + Seq::<FieldMap>::empty() =~= recs);
    let shown = listing(after_appends(Map::empty(), recs));
    let k = earlier.len() as int;
    assert(shown[k] == record_map(organizer, name, date, id));
    assert(shown[k][organizer_field()] == organizer);
}

/// One step of a scan from the first slot, as the append probe and the listing
/// make it. Before the step every slot below `slot` is taken and `seen` holds
/// their records. A free `slot` is the first free one, and `seen` is then the
/// whole listing; a taken one extends `seen` by its record. Since the scan
/// only reads, two listings with no write between them see the same store
/// and return the same records.
pub proof fn lemma_scan_step(st: StoreState, slot: nat, seen: Seq<FieldMap>)
    requires
        has_first_free(st),
        slot >= 1,
        forall|m: nat| 1 <= m < slot ==> occupied(st, m),
        seen == Seq::new((slot - 1) as nat, |i: int| st[(i + 1) as nat]),
    ensures
        !occupied(st, slot) ==> slot == first_free(st) && seen == listing(st),
        occupied(st, slot) ==> slot < first_free(st) && seen.push(st[slot]) == listing(st).take(
            slot as int,
        ),
{
    let f = first_free(st);
    assert(is_first_free(st, f));
    if !occupied(st, slot) {
        assert(is_first_free(st, slot));
        lemma_first_free_unique(st, slot, f);
        assert(seen =~= listing(st));
    } else {
        if f <= slot {
            if f < slot {
                assert(occupied(st, f));
            }
        }
        assert(seen.push(st[slot]) =~= listing(st).take(slot as int));
    }
}

/// A listing of the empty store is empty.
pub proof fn lemma_empty_listing()
    ensures
        has_first_free(Map::empty()),
        listing(Map::empty()) == Seq::<FieldMap>::empty(),
{
    let st: StoreState = Map::empty();
    assert(is_first_free(st, 1));
    lemma_first_free_unique(st, 1, first_free(st));
    assert(listing(st) =~= Seq::<FieldMap>::empty());
}

} // verus!
