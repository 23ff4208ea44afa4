//! The collection state machine: correlates an unordered stream of
//! advertisement events against the expected-sensor table and decides when a
//! round is complete.

use vstd::prelude::*;

use crate::sensor::{Reading, ReadingView, SensorReadings, spec_frame_decode};

verus! {

/// The immutable address-to-alias table supplied at process start.
/// Addresses identify devices; aliases are the key space of a batch.
pub struct SensorTable {
    entries: Vec<(String, String)>,
}

impl View for SensorTable {
    type V = Seq<(Seq<char>, Seq<char>)>;

    closed spec fn view(&self) -> Seq<(Seq<char>, Seq<char>)> {
        Seq::new(self.entries@.len(), |i: int| (self.entries@[i].0@, self.entries@[i].1@))
    }
}

/// Well-formedness of a table: addresses are pairwise distinct, and so are
/// aliases. Aliases must be unique because they key the batch.
pub open spec fn table_wf(t: Seq<(Seq<char>, Seq<char>)>) -> bool {
    &&& (forall|i: int, j: int| 0 <= i < j < t.len() ==> t[i].0 != t[j].0)
    &&& (forall|i: int, j: int| 0 <= i < j < t.len() ==> t[i].1 != t[j].1)
}

/// The alias bound to an address: that of the first entry carrying the
/// address (under `table_wf` there is at most one).
pub open spec fn spec_lookup(t: Seq<(Seq<char>, Seq<char>)>, addr: Seq<char>) -> Option<Seq<char>>
    decreases t.len(),
{
    if t.len() == 0 {
        None
    } else if t[0].0 == addr {
        Some(t[0].1)
    } else {
        spec_lookup(t.drop_first(), addr)
    }
}

/// `spec_lookup` answers `Some` exactly for the addresses of the table, and
/// the alias it yields stands beside that address in some entry.
pub proof fn lemma_lookup_characterization(t: Seq<(Seq<char>, Seq<char>)>, addr: Seq<char>)
    ensures
        match spec_lookup(t, addr) {
            Some(al) => exists|i: int| 0 <= i < t.len() && t[i].0 == addr && t[i].1 == al,
            None => forall|i: int| 0 <= i < t.len() ==> t[i].0 != addr,
        },
    decreases t.len(),
{
    if t.len() == 0 {
    } else if t[0].0 == addr {
    } else {
        lemma_lookup_characterization(t.drop_first(), addr);
        match spec_lookup(t.drop_first(), addr) {
            Some(al) => {
                let i = choose|i: int|
                    0 <= i < t.drop_first().len() && t.drop_first()[i].0 == addr
                        && t.drop_first()[i].1 == al;
                assert(t[i + 1].0 == addr && t[i + 1].1 == al);
            },
            None => {
                assert forall|i: int| 0 <= i < t.len() implies t[i].0 != addr by {
                    if i > 0 {
                        assert(t.drop_first()[i - 1] == t[i]);
                    }
                }
            },
        }
    }
}

/// Under distinct addresses, looking up the address of entry `j` yields the
/// alias of entry `j`.
pub proof fn lemma_lookup_entry(t: Seq<(Seq<char>, Seq<char>)>, j: int)
    requires
        forall|i: int, k: int| 0 <= i < k < t.len() ==> t[i].0 != t[k].0,
        0 <= j < t.len(),
    ensures
        spec_lookup(t, t[j].0) == Some(t[j].1),
    decreases t.len(),
{
    if j == 0 {
    } else {
        assert(t[0].0 != t[j].0);
        assert(forall|i: int, k: int|
            0 <= i < k < t.drop_first().len() ==> t.drop_first()[i].0 != t.drop_first()[k].0);
        lemma_lookup_entry(t.drop_first(), j - 1);
        assert(t.drop_first()[j - 1] == t[j]);
    }
}

impl SensorTable {
    /// An empty table.
    pub fn new() -> (r: SensorTable)
        ensures
            r@ == Seq::<(Seq<char>, Seq<char>)>::empty(),
    {
        let r = SensorTable { entries: Vec::new() };
        proof {
            assert(r@ =~= Seq::<(Seq<char>, Seq<char>)>::empty());
        }
        r
    }

    /// Number of expected sensors.
    pub fn len(&self) -> (n: usize)
        ensures
            n == self@.len(),
    {
        self.entries.len()
    }

    /// Binds an alias to an address. The pair is refused — and the table left
    /// unchanged — when the address or the alias is already bound, so that a
    /// well-formed table stays well-formed.
    pub fn insert(&mut self, address: String, alias: String) -> (added: bool)
        requires
            table_wf(old(self)@),
        ensures
            table_wf(final(self)@),
            added ==> final(self)@ == old(self)@.push((address@, alias@)),
            added ==> forall|i: int|
                0 <= i < old(self)@.len() ==> old(self)@[i].0 != address@ && old(self)@[i].1
                    != alias@,
            !added ==> final(self)@ == old(self)@,
            !added ==> exists|i: int|
                0 <= i < old(self)@.len() && (old(self)@[i].0 == address@ || old(self)@[i].1
                    == alias@),
    {
        let n = self.entries.len();
        let mut j: usize = 0;
        while j < n
            invariant
                j <= n,
                n == self@.len(),
                self == old(self),
                table_wf(self@),
                forall|i: int| 0 <= i < j ==> self@[i].0 != address@ && self@[i].1 != alias@,
            decreases n - j,
        {
            let conflict = self.entries[j].0 == address || self.entries[j].1 == alias;
            if conflict {
                proof {
                    assert(self@[j as int].0 == address@ || self@[j as int].1 == alias@);
                }
                return false;
            }
            j += 1;
        }
        let ghost t0 = self@;
        self.entries.push((address, alias));
        proof {
            assert(self@ =~= t0.push((address@, alias@)));
        }
        true
    }

    /// The alias for an address, if the address is expected.
    pub fn lookup(&self, address: &String) -> (r: Option<String>)
        ensures
            match r {
                Some(al) => spec_lookup(self@, address@) == Some(al@),
                None => spec_lookup(self@, address@) is None,
            },
    {
        let n = self.entries.len();
        let mut j: usize = 0;
        proof {
            assert(self@.skip(0) =~= self@);
        }
        while j < n
            invariant
                j <= n,
                n == self@.len(),
                spec_lookup(self@, address@) == spec_lookup(self@.skip(j as int), address@),
            decreases n - j,
        {
            if self.entries[j].0 == *address {
                proof {
                    assert(self@.skip(j as int)[0] == self@[j as int]);
                }
                return Some(self.entries[j].1.clone());
            }
            proof {
                assert(self@.skip(j as int)[0] == self@[j as int]);
                assert(self@.skip(j as int).drop_first() =~= self@.skip(j as int + 1));
            }
            j += 1;
        }
        proof {
            assert(self@.skip(n as int).len() == 0);
        }
        None
    }
}

/// A batch under construction or completed: an alias-to-reading mapping
/// ordered by first insertion.
pub struct Batch {
    entries: Vec<(String, Reading)>,
}

impl View for Batch {
    type V = Seq<(Seq<char>, ReadingView)>;

    closed spec fn view(&self) -> Seq<(Seq<char>, ReadingView)> {
        Seq::new(self.entries@.len(), |i: int| (self.entries@[i].0@, self.entries@[i].1@))
    }
}

/// Aliases are never duplicated within a batch.
pub open spec fn batch_wf(b: Seq<(Seq<char>, ReadingView)>) -> bool {
    forall|i: int, j: int| 0 <= i < j < b.len() ==> b[i].0 != b[j].0
}

/// The reading stored for an alias: that of the first entry carrying it
/// (under `batch_wf` there is at most one).
pub open spec fn spec_batch_get(b: Seq<(Seq<char>, ReadingView)>, k: Seq<char>) -> Option<
    ReadingView,
>
    decreases b.len(),
{
    if b.len() == 0 {
        None
    } else if b[0].0 == k {
        Some(b[0].1)
    } else {
        spec_batch_get(b.drop_first(), k)
    }
}

/// Whether the batch holds an entry for the alias.
pub open spec fn batch_has_key(b: Seq<(Seq<char>, ReadingView)>, k: Seq<char>) -> bool {
    spec_batch_get(b, k) is Some
}

/// `spec_batch_get` answers `Some` exactly for the aliases that stand in some
/// entry of the batch.
pub proof fn lemma_batch_get_characterization(b: Seq<(Seq<char>, ReadingView)>, k: Seq<char>)
    ensures
        match spec_batch_get(b, k) {
            Some(v) => exists|i: int| 0 <= i < b.len() && b[i].0 == k && b[i].1 == v,
            None => forall|i: int| 0 <= i < b.len() ==> b[i].0 != k,
        },
    decreases b.len(),
{
    if b.len() == 0 {
    } else if b[0].0 == k {
    } else {
        lemma_batch_get_characterization(b.drop_first(), k);
        match spec_batch_get(b.drop_first(), k) {
            Some(v) => {
                let i = choose|i: int|
                    0 <= i < b.drop_first().len() && b.drop_first()[i].0 == k
                        && b.drop_first()[i].1 == v;
                assert(b[i + 1].0 == k && b[i + 1].1 == v);
            },
            None => {
                assert forall|i: int| 0 <= i < b.len() implies b[i].0 != k by {
                    if i > 0 {
                        assert(b.drop_first()[i - 1] == b[i]);
                    }
                }
            },
        }
    }
}

/// Most-recent-wins update: replaces the entry for `k` in place, or appends a
/// new entry at the end when `k` is not yet present.
pub open spec fn spec_upsert(
    b: Seq<(Seq<char>, ReadingView)>,
    k: Seq<char>,
    v: ReadingView,
) -> Seq<(Seq<char>, ReadingView)>
    decreases b.len(),
{
    if b.len() == 0 {
        seq![(k, v)]
    } else if b[0].0 == k {
        seq![(k, v)] + b.drop_first()
    } else {
        seq![b[0]] + spec_upsert(b.drop_first(), k, v)
    }
}

/// What an upsert does: the updated alias now maps to the new reading, every
/// other alias is untouched, the size grows only for a fresh alias, and
/// well-formedness is preserved.
pub proof fn lemma_upsert_props(b: Seq<(Seq<char>, ReadingView)>, k: Seq<char>, v: ReadingView)
    ensures
        spec_upsert(b, k, v).len() == if batch_has_key(b, k) {
            b.len() as int
        } else {
            b.len() + 1 as int
        },
        spec_batch_get(spec_upsert(b, k, v), k) == Some(v),
        forall|k2: Seq<char>|
            k2 != k ==> spec_batch_get(spec_upsert(b, k, v), k2) == spec_batch_get(b, k2),
        batch_wf(b) ==> batch_wf(spec_upsert(b, k, v)),
    decreases b.len(),
{
    let u = spec_upsert(b, k, v);
    if b.len() == 0 {
        assert(u == seq![(k, v)]);
        assert(spec_batch_get(u, k) == Some(v));
        assert forall|k2: Seq<char>| k2 != k implies spec_batch_get(u, k2) == spec_batch_get(
            b,
            k2,
        ) by {
            assert(u[0].0 == k);
            assert(spec_batch_get(u, k2) == spec_batch_get(u.drop_first(), k2));
            assert(u.drop_first() =~= Seq::<(Seq<char>, ReadingView)>::empty());
            assert(spec_batch_get(Seq::<(Seq<char>, ReadingView)>::empty(), k2) is None);
            assert(spec_batch_get(b, k2) is None);
        }
    } else if b[0].0 == k {
        assert(u == seq![(k, v)] + b.drop_first());
        assert(u.len() == b.len());
        assert(u[0] == (k, v));
        assert(u.drop_first() =~= b.drop_first());
        assert(spec_batch_get(u, k) == Some(v));
        assert forall|k2: Seq<char>| k2 != k implies spec_batch_get(u, k2) == spec_batch_get(
            b,
            k2,
        ) by {
            assert(spec_batch_get(u, k2) == spec_batch_get(u.drop_first(), k2));
            assert(spec_batch_get(b, k2) == spec_batch_get(b.drop_first(), k2));
        }
        if batch_wf(b) {
            assert forall|i: int, j: int| 0 <= i < j < u.len() implies u[i].0 != u[j].0 by {
                assert(u[j] == b[j]);
                if i > 0 {
                    assert(u[i] == b[i]);
                }
            }
        }
    } else {
        let d = b.drop_first();
        lemma_upsert_props(d, k, v);
        let ur = spec_upsert(d, k, v);
        assert(u == seq![b[0]] + ur);
        assert(u[0] == b[0]);
        assert(u.drop_first() =~= ur);
        assert(spec_batch_get(u, k) == spec_batch_get(ur, k));
        assert(batch_has_key(b, k) == batch_has_key(d, k));
        assert forall|k2: Seq<char>| k2 != k implies spec_batch_get(u, k2) == spec_batch_get(
            b,
            k2,
        ) by {
            if b[0].0 == k2 {
            } else {
                assert(spec_batch_get(u, k2) == spec_batch_get(ur, k2));
                assert(spec_batch_get(b, k2) == spec_batch_get(d, k2));
            }
        }
        if batch_wf(b) {
            assert(batch_wf(d)) by {
                assert(forall|i: int, j: int|
                    0 <= i < j < d.len() ==> d[i] == b[i + 1] && d[j] == b[j + 1]);
            }
            assert forall|i: int, j: int| 0 <= i < j < u.len() implies u[i].0 != u[j].0 by {
                assert(u[j] == ur[j - 1]);
                if i == 0 {
                    // the head key is neither `k` nor any key of the tail, so it
                    // cannot stand in the upserted tail
                    if u[j].0 == b[0].0 {
                        lemma_batch_get_characterization(ur, b[0].0);
                        assert(spec_batch_get(ur, b[0].0) is Some);
                        assert(spec_batch_get(ur, b[0].0) == spec_batch_get(d, b[0].0));
                        lemma_batch_get_characterization(d, b[0].0);
                        let m = choose|m: int| 0 <= m < d.len() && d[m].0 == b[0].0;
                        assert(b[m + 1].0 == b[0].0);
                    }
                } else {
                    assert(u[i] == ur[i - 1]);
                }
            }
        }
    }
}

/// When the first entry carrying `k` stands at `j`, an upsert is an in-place
/// update of entry `j`.
proof fn lemma_upsert_at(b: Seq<(Seq<char>, ReadingView)>, k: Seq<char>, v: ReadingView, j: int)
    requires
        0 <= j < b.len(),
        b[j].0 == k,
        forall|i: int| 0 <= i < j ==> b[i].0 != k,
    ensures
        spec_upsert(b, k, v) == b.update(j, (k, v)),
    decreases j,
{
    if j == 0 {
        assert(spec_upsert(b, k, v) =~= b.update(0, (k, v)));
    } else {
        let d = b.drop_first();
        assert(forall|i: int| 0 <= i < j - 1 ==> d[i] == b[i + 1]);
        assert(d[j - 1] == b[j]);
        lemma_upsert_at(d, k, v, j - 1);
        assert(spec_upsert(b, k, v) =~= b.update(j, (k, v)));
    }
}

/// When no entry carries `k`, an upsert appends a new entry at the end.
proof fn lemma_upsert_absent(b: Seq<(Seq<char>, ReadingView)>, k: Seq<char>, v: ReadingView)
    requires
        forall|i: int| 0 <= i < b.len() ==> b[i].0 != k,
    ensures
        spec_upsert(b, k, v) == b.push((k, v)),
    decreases b.len(),
{
    if b.len() == 0 {
        assert(spec_upsert(b, k, v) =~= b.push((k, v)));
    } else {
        let d = b.drop_first();
        assert(forall|i: int| 0 <= i < d.len() ==> d[i] == b[i + 1]);
        lemma_upsert_absent(d, k, v);
        assert(spec_upsert(b, k, v) =~= b.push((k, v)));
    }
}

impl Batch {
    /// An empty batch, created at the start of a collection round.
    pub fn new() -> (r: Batch)
        ensures
            r@ == Seq::<(Seq<char>, ReadingView)>::empty(),
    {
        let r = Batch { entries: Vec::new() };
        proof {
            assert(r@ =~= Seq::<(Seq<char>, ReadingView)>::empty());
        }
        r
    }

    /// Number of aliases holding a reading.
    pub fn len(&self) -> (n: usize)
        ensures
            n == self@.len(),
    {
        self.entries.len()
    }

    /// Stores a reading for an alias, overwriting in place any earlier
    /// reading for the same alias (most-recent-wins) and appending otherwise.
    pub fn upsert(&mut self, alias: String, reading: Reading)
        ensures
            final(self)@ == spec_upsert(old(self)@, alias@, reading@),
    {
        let n = self.entries.len();
        let mut j: usize = 0;
        while j < n
            invariant
                j <= n,
                n == self@.len(),
                self == old(self),
                forall|i: int| 0 <= i < j ==> self@[i].0 != alias@,
            decreases n - j,
        {
            if self.entries[j].0 == alias {
                let ghost b0 = self@;
                self.entries.remove(j);
                self.entries.insert(j, (alias, reading));
                proof {
                    assert(self@ =~= b0.update(j as int, (b0[j as int].0, reading@)));
                    lemma_upsert_at(b0, b0[j as int].0, reading@, j as int);
                }
                return ;
            }
            j += 1;
        }
        let ghost b0 = self@;
        self.entries.push((alias, reading));
        proof {
            assert(self@ =~= b0.push((alias@, reading@)));
            lemma_upsert_absent(b0, alias@, reading@);
        }
    }

    /// The reading stored for an alias, if any.
    pub fn get(&self, alias: &String) -> (r: Option<&Reading>)
        ensures
            match r {
                Some(rd) => spec_batch_get(self@, alias@) == Some(rd@),
                None => spec_batch_get(self@, alias@) is None,
            },
    {
        let n = self.entries.len();
        let mut j: usize = 0;
        proof {
            assert(self@.skip(0) =~= self@);
        }
        while j < n
            invariant
                j <= n,
                n == self@.len(),
                spec_batch_get(self@, alias@) == spec_batch_get(self@.skip(j as int), alias@),
            decreases n - j,
        {
            if self.entries[j].0 == *alias {
                proof {
                    assert(self@.skip(j as int)[0] == self@[j as int]);
                }
                return Some(&self.entries[j].1);
            }
            proof {
                assert(self@.skip(j as int)[0] == self@[j as int]);
                assert(self@.skip(j as int).drop_first() =~= self@.skip(j as int + 1));
            }
            j += 1;
        }
        proof {
            assert(self@.skip(n as int).len() == 0);
        }
        None
    }

    /// The alias of entry `i`, in first-insertion order.
    pub fn alias_at(&self, i: usize) -> (r: &String)
        requires
            i < self@.len(),
        ensures
            r@ == self@[i as int].0,
    {
        &self.entries[i].0
    }

    /// The reading of entry `i`, in first-insertion order.
    pub fn reading_at(&self, i: usize) -> (r: &Reading)
        requires
            i < self@.len(),
        ensures
            r@ == self@[i as int].1,
    {
        &self.entries[i].1
    }
}

/// One device notification as the event source reports it: the device
/// address, the advertisement's manufacturer-data field if it carries one,
/// and the capture time in seconds since the epoch.
pub struct Advertisement {
    pub address: String,
    pub manufacturer_data: Option<Vec<u8>>,
    pub timestamp: u64,
}

/// Mathematical image of an [`Advertisement`].
pub struct AdvertisementView {
    pub address: Seq<char>,
    pub manufacturer_data: Option<Seq<u8>>,
    pub timestamp: u64,
}

impl View for Advertisement {
    type V = AdvertisementView;

    open spec fn view(&self) -> AdvertisementView {
        AdvertisementView {
            address: self.address@,
            manufacturer_data: match self.manufacturer_data {
                Some(d) => Some(d@),
                None => None,
            },
            timestamp: self.timestamp,
        }
    }
}

/// What decoding one event yields: nothing when the advertisement carries no
/// manufacturer data, the decoder's verdict on the field otherwise.
pub open spec fn spec_event_decode(e: AdvertisementView) -> Option<SensorReadings> {
    match e.manufacturer_data {
        Some(d) => spec_frame_decode(d),
        None => None,
    }
}

/// Decodes one event into a reading stamped with the event's address and
/// capture time. A decode failure yields nothing and is not fatal.
pub fn reading_from_event(e: &Advertisement) -> (r: Option<Reading>)
    ensures
        match r {
            Some(rd) => {
                &&& spec_event_decode(e@) == Some(rd@.values)
                &&& rd@.address == e.address@
                &&& rd@.timestamp == e.timestamp
            },
            None => spec_event_decode(e@) is None,
        },
{
    match &e.manufacturer_data {
        Some(d) => match crate::sensor::from_manufacturer_data(d.as_slice()) {
            Some(values) => Some(Reading::new(e.address.clone(), e.timestamp, values)),
            None => None,
        },
        None => None,
    }
}

/// One step of the collection round: a decodable event for an expected
/// address upserts the reading under the address's alias; any other event
/// leaves the batch untouched.
pub open spec fn spec_step(
    t: Seq<(Seq<char>, Seq<char>)>,
    b: Seq<(Seq<char>, ReadingView)>,
    e: AdvertisementView,
) -> Seq<(Seq<char>, ReadingView)> {
    match spec_event_decode(e) {
        Some(values) => match spec_lookup(t, e.address) {
            Some(alias) => spec_upsert(
                b,
                alias,
                ReadingView { address: e.address, timestamp: e.timestamp, values },
            ),
            None => b,
        },
        None => b,
    }
}

/// The whole collection round: completeness — the batch holding as many
/// entries as the table — is checked before each event is consumed, and on
/// completeness the batch is returned at once; an exhausted event sequence
/// before completeness yields nothing.
pub open spec fn spec_collect(
    t: Seq<(Seq<char>, Seq<char>)>,
    b: Seq<(Seq<char>, ReadingView)>,
    events: Seq<AdvertisementView>,
) -> Option<Seq<(Seq<char>, ReadingView)>>
    decreases events.len(),
{
    if b.len() == t.len() {
        Some(b)
    } else if events.len() == 0 {
        None
    } else {
        spec_collect(t, spec_step(t, b, events[0]), events.drop_first())
    }
}

/// The images of a sequence of events.
pub open spec fn events_view(events: Seq<Advertisement>) -> Seq<AdvertisementView> {
    events.map_values(|e: Advertisement| e@)
}

/// The one fatal condition of a collection round: the event stream ended
/// before every expected sensor had reported.
#[derive(Clone, Copy, Debug, PartialEq, Eq, Structural)]
pub enum CollectError {
    StreamEnded,
}

/// Runs one collection round over a replayed event sequence: decodes each
/// event in order, correlates it against the table, and stops the moment the
/// batch is complete. A partial batch is never returned: if the events end
/// first, the round fails with [`CollectError::StreamEnded`].
pub fn collect(table: &SensorTable, events: &Vec<Advertisement>) -> (r: Result<
    Batch,
    CollectError,
>)
    requires
        table_wf(table@),
    ensures
        match r {
            Ok(b) => {
                &&& batch_wf(b@)
                &&& spec_collect(table@, Seq::empty(), events_view(events@)) == Some(b@)
            },
            Err(e) => {
                &&& e == CollectError::StreamEnded
                &&& spec_collect(table@, Seq::empty(), events_view(events@)) is None
            },
        },
{
    let ghost evs = events_view(events@);
    let mut batch = Batch::new();
    let mut i: usize = 0;
    proof {
        assert(evs.skip(0) =~= evs);
    }
    loop
        invariant
            i <= events@.len(),
            evs == events_view(events@),
            evs.len() == events@.len(),
            table_wf(table@),
            batch_wf(batch@),
            spec_collect(table@, Seq::empty(), evs) == spec_collect(
                table@,
                batch@,
                evs.skip(i as int),
            ),
        decreases evs.len() - i,
    {
        if batch.len() == table.len() {
            return Ok(batch);
        }
        if i == events.len() {
            proof {
                assert(evs.skip(i as int).len() == 0);
            }
            return Err(CollectError::StreamEnded);
        }
        let e = &events[i];
        let ghost b0 = batch@;
        match reading_from_event(e) {
            Some(reading) => {
                match table.lookup(&e.address) {
                    Some(alias) => {
                        proof {
                            lemma_upsert_props(b0, alias@, reading@);
                        }
                        batch.upsert(alias, reading);
                    },
                    None => {},
                }
            },
            None => {},
        }
        proof {
            assert(evs[i as int] == events@[i as int]@);
            assert(batch@ == spec_step(table@, b0, evs[i as int]));
            assert(evs.skip(i as int)[0] == evs[i as int]);
            assert(evs.skip(i as int).drop_first() =~= evs.skip(i as int + 1));
        }
        i += 1;
    }
}

/// The batch's aliases, in entry order.
pub open spec fn batch_keys(b: Seq<(Seq<char>, ReadingView)>) -> Seq<Seq<char>> {
    Seq::new(b.len(), |i: int| b[i].0)
}

/// The table's aliases, in entry order.
pub open spec fn table_aliases(t: Seq<(Seq<char>, Seq<char>)>) -> Seq<Seq<char>> {
    Seq::new(t.len(), |i: int| t[i].1)
}

/// Every alias of the batch is an alias of the table.
pub open spec fn batch_from_table(
    b: Seq<(Seq<char>, ReadingView)>,
    t: Seq<(Seq<char>, Seq<char>)>,
) -> bool {
    forall|i: int| 0 <= i < b.len() ==> table_aliases(t).contains(#[trigger] b[i].0)
}

/// Counting argument: a batch whose aliases are pairwise distinct and drawn
/// from the table can never outgrow the table, and the moment the sizes agree
/// it holds every alias of the table.
proof fn lemma_batch_card(b: Seq<(Seq<char>, ReadingView)>, t: Seq<(Seq<char>, Seq<char>)>)
    requires
        batch_wf(b),
        table_wf(t),
        batch_from_table(b, t),
    ensures
        b.len() <= t.len(),
        b.len() == t.len() ==> forall|j: int| 0 <= j < t.len() ==> batch_has_key(b, #[trigger] t[j].1),
{
    broadcast use vstd::seq_lib::seq_to_set_is_finite;

    let ks = batch_keys(b);
    let als = table_aliases(t);
    assert(ks.no_duplicates()) by {
        assert(forall|i: int, j: int| 0 <= i < j < b.len() ==> ks[i] != ks[j]);
    }
    assert(als.no_duplicates()) by {
        assert(forall|i: int, j: int| 0 <= i < j < t.len() ==> als[i] != als[j]);
    }
    ks.unique_seq_to_set();
    als.unique_seq_to_set();
    assert(ks.to_set() <= als.to_set()) by {
        assert forall|x: Seq<char>| ks.to_set().contains(x) implies als.to_set().contains(x) by {
            let i = choose|i: int| 0 <= i < ks.len() && ks[i] == x;
            assert(b[i].0 == x);
        }
    }
    vstd::set_lib::lemma_len_subset(ks.to_set(), als.to_set());
    if b.len() == t.len() {
        assert forall|j: int| 0 <= j < t.len() implies batch_has_key(b, #[trigger] t[j].1) by {
            assert(als[j] == t[j].1);
            assert(als.to_set().contains(t[j].1));
            if !ks.to_set().contains(t[j].1) {
                assert(ks.to_set() <= als.to_set().remove(t[j].1));
                vstd::set_lib::lemma_len_subset(ks.to_set(), als.to_set().remove(t[j].1));
                assert(false);
            }
            let i = choose|i: int| 0 <= i < ks.len() && ks[i] == t[j].1;
            assert(b[i].0 == t[j].1);
            lemma_batch_get_characterization(b, t[j].1);
        }
    }
}

/// A batch drawn from the table never holds more entries than the table has
/// aliases.
pub proof fn lemma_batch_bounded_by_table(
    b: Seq<(Seq<char>, ReadingView)>,
    t: Seq<(Seq<char>, Seq<char>)>,
)
    requires
        batch_wf(b),
        table_wf(t),
        batch_from_table(b, t),
    ensures
        b.len() <= t.len(),
{
    lemma_batch_card(b, t);
}

/// A round only ever yields a complete batch: one entry per expected alias,
/// never a partial one.
pub proof fn lemma_collect_complete_only(
    t: Seq<(Seq<char>, Seq<char>)>,
    b: Seq<(Seq<char>, ReadingView)>,
    events: Seq<AdvertisementView>,
)
    ensures
        spec_collect(t, b, events) matches Some(r) ==> r.len() == t.len(),
    decreases events.len(),
{
    if b.len() == t.len() {
    } else if events.len() == 0 {
    } else {
        lemma_collect_complete_only(t, spec_step(t, b, events[0]), events.drop_first());
    }
}

/// Whether one event would contribute a reading for the given address:
/// it reports that address and its payload decodes.
pub open spec fn event_covers(e: AdvertisementView, addr: Seq<char>) -> bool {
    e.address == addr && spec_event_decode(e) is Some
}

/// Whether some event of the sequence covers the address.
pub open spec fn events_cover(events: Seq<AdvertisementView>, addr: Seq<char>) -> bool {
    exists|i: int| 0 <= i < events.len() && event_covers(#[trigger] events[i], addr)
}

/// Generalized completion law: from any well-formed intermediate batch, a
/// round whose remaining events cover every still-missing address completes,
/// and the completed batch holds exactly one entry per alias of the table —
/// whatever the event order and whatever foreign or undecodable events stand
/// in between.
pub proof fn lemma_collect_completes(
    t: Seq<(Seq<char>, Seq<char>)>,
    b: Seq<(Seq<char>, ReadingView)>,
    events: Seq<AdvertisementView>,
)
    requires
        table_wf(t),
        batch_wf(b),
        batch_from_table(b, t),
        forall|j: int|
            0 <= j < t.len() && !batch_has_key(b, #[trigger] t[j].1) ==> events_cover(
                events,
                t[j].0,
            ),
    ensures
        spec_collect(t, b, events) is Some,
        spec_collect(t, b, events).unwrap().len() == t.len(),
        forall|j: int|
            0 <= j < t.len() ==> batch_has_key(spec_collect(t, b, events).unwrap(), #[trigger] t[j].1),
    decreases events.len(),
{
    lemma_batch_card(b, t);
    if b.len() == t.len() {
    } else {
        assert(b.len() < t.len());
        if events.len() == 0 {
            // some alias must still be missing, yet nothing can cover its
            // address in an empty sequence
            broadcast use vstd::seq_lib::seq_to_set_is_finite;

            let ks = batch_keys(b);
            let als = table_aliases(t);
            if forall|j: int| 0 <= j < t.len() ==> batch_has_key(b, #[trigger] t[j].1) {
                assert(als.to_set() <= ks.to_set()) by {
                    assert forall|x: Seq<char>| als.to_set().contains(x) implies ks.to_set().contains(
                        x,
                    ) by {
                        let j = choose|j: int| 0 <= j < als.len() && als[j] == x;
                        assert(t[j].1 == x);
                        assert(batch_has_key(b, t[j].1));
                        lemma_batch_get_characterization(b, x);
                        let i = choose|i: int| 0 <= i < b.len() && b[i].0 == x;
                        assert(ks[i] == x);
                    }
                }
                vstd::set_lib::lemma_len_subset(als.to_set(), ks.to_set());
                ks.unique_seq_to_set();
                als.unique_seq_to_set();
                assert(ks.no_duplicates()) by {
                    assert(forall|i: int, j: int| 0 <= i < j < b.len() ==> ks[i] != ks[j]);
                }
                assert(als.no_duplicates()) by {
                    assert(forall|i: int, j: int| 0 <= i < j < t.len() ==> als[i] != als[j]);
                }
                assert(false);
            }
            let j = choose|j: int| 0 <= j < t.len() && !batch_has_key(b, #[trigger] t[j].1);
            assert(events_cover(events, t[j].0));
            assert(false);
        } else {
            let e = events[0];
            let b1 = spec_step(t, b, e);
            // the step preserves well-formedness and keeps keys inside the table
            match spec_event_decode(e) {
                Some(values) => {
                    match spec_lookup(t, e.address) {
                        Some(alias) => {
                            let v = ReadingView {
                                address: e.address,
                                timestamp: e.timestamp,
                                values,
                            };
                            lemma_upsert_props(b, alias, v);
                            lemma_lookup_characterization(t, e.address);
                            assert(batch_from_table(b1, t)) by {
                                lemma_batch_get_characterization(b1, alias);
                                assert forall|i: int|
                                    0 <= i < b1.len() implies table_aliases(t).contains(
                                    #[trigger] b1[i].0,
                                ) by {
                                    lemma_batch_get_characterization(b1, b1[i].0);
                                    if b1[i].0 == alias {
                                        let m = choose|m: int|
                                            0 <= m < t.len() && t[m].0 == e.address && t[m].1
                                                == alias;
                                        assert(table_aliases(t)[m] == alias);
                                    } else {
                                        assert(spec_batch_get(b1, b1[i].0) == spec_batch_get(
                                            b,
                                            b1[i].0,
                                        ));
                                        lemma_batch_get_characterization(b, b1[i].0);
                                        let m = choose|m: int|
                                            0 <= m < b.len() && b[m].0 == b1[i].0;
                                        assert(table_aliases(t).contains(b[m].0));
                                    }
                                }
                            }
                        },
                        None => {},
                    }
                },
                None => {},
            }
            // a still-missing alias is covered by the remaining events
            assert forall|j: int|
                0 <= j < t.len() && !batch_has_key(b1, #[trigger] t[j].1) implies events_cover(
                events.drop_first(),
                t[j].0,
            ) by {
                assert(!batch_has_key(b, t[j].1)) by {
                    if batch_has_key(b, t[j].1) {
                        match spec_event_decode(e) {
                            Some(values) => {
                                match spec_lookup(t, e.address) {
                                    Some(alias) => {
                                        let v = ReadingView {
                                            address: e.address,
                                            timestamp: e.timestamp,
                                            values,
                                        };
                                        lemma_upsert_props(b, alias, v);
                                        if t[j].1 != alias {
                                            assert(spec_batch_get(b1, t[j].1) == spec_batch_get(
                                                b,
                                                t[j].1,
                                            ));
                                        }
                                    },
                                    None => {},
                                }
                            },
                            None => {},
                        }
                    }
                }
                assert(events_cover(events, t[j].0));
                let i = choose|i: int|
                    0 <= i < events.len() && event_covers(#[trigger] events[i], t[j].0);
                if i == 0 {
                    // the head event covers the address, so the step has just
                    // inserted this very alias
                    lemma_lookup_entry(t, j);
                    let values = spec_event_decode(e).unwrap();
                    let v = ReadingView { address: e.address, timestamp: e.timestamp, values };
                    lemma_upsert_props(b, t[j].1, v);
                    assert(batch_has_key(b1, t[j].1));
                    assert(false);
                } else {
                    assert(events.drop_first()[i - 1] == events[i]);
                }
            }
            lemma_collect_completes(t, b1, events.drop_first());
        }
    }
}

/// Completion law for a whole round: for every well-formed expected-sensor
/// table, a round over events that cover each expected address yields a batch
/// of exactly the table's size holding every alias.
pub proof fn lemma_collect_covering_round(
    t: Seq<(Seq<char>, Seq<char>)>,
    events: Seq<AdvertisementView>,
)
    requires
        table_wf(t),
        forall|j: int| 0 <= j < t.len() ==> events_cover(events, #[trigger] t[j].0),
    ensures
        spec_collect(t, Seq::empty(), events) is Some,
        spec_collect(t, Seq::empty(), events).unwrap().len() == t.len(),
        forall|j: int|
            0 <= j < t.len() ==> batch_has_key(
                spec_collect(t, Seq::empty(), events).unwrap(),
                #[trigger] t[j].1,
            ),
{
    let b = Seq::<(Seq<char>, ReadingView)>::empty();
    assert(batch_from_table(b, t));
    lemma_collect_completes(t, b, events);
}

/// Most-recent-wins law: when an expected address reports twice with
/// decodable payloads before the round completes, the batch entry for its
/// alias carries the later event's values and capture time.
pub proof fn lemma_most_recent_wins(
    t: Seq<(Seq<char>, Seq<char>)>,
    b: Seq<(Seq<char>, ReadingView)>,
    e1: AdvertisementView,
    e2: AdvertisementView,
)
    requires
        table_wf(t),
        e1.address == e2.address,
        spec_event_decode(e1) is Some,
        spec_event_decode(e2) is Some,
        spec_lookup(t, e2.address) is Some,
        // the round is not yet complete after the first of the two events,
        // so the second is still consumed
        spec_step(t, b, e1).len() != t.len(),
    ensures
        ({
            let alias = spec_lookup(t, e2.address).unwrap();
            spec_batch_get(spec_step(t, spec_step(t, b, e1), e2), alias) == Some(
                ReadingView {
                    address: e2.address,
                    timestamp: e2.timestamp,
                    values: spec_event_decode(e2).unwrap(),
                },
            )
        }),
{
    let alias = spec_lookup(t, e2.address).unwrap();
    let v2 = ReadingView {
        address: e2.address,
        timestamp: e2.timestamp,
        values: spec_event_decode(e2).unwrap(),
    };
    lemma_upsert_props(spec_step(t, b, e1), alias, v2);
}

/// Empty-table law: with no expected sensors the round is complete before
/// any event is consumed, and yields the empty batch whatever events stand
/// in the sequence.
pub proof fn lemma_empty_table_immediate(
    t: Seq<(Seq<char>, Seq<char>)>,
    events: Seq<AdvertisementView>,
)
    requires
        t.len() == 0,
    ensures
        spec_collect(t, Seq::empty(), events) == Some(Seq::<(Seq<char>, ReadingView)>::empty()),
{
}

} // verus!
