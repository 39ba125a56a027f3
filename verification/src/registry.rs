//! An in-memory document store for emote records and namespace counters.
//!
//! The registry models the two collections the subsystem works against: the
//! emote records, written once at creation, and one counter row per
//! namespace. `increment_and_get` is the atomic upsert-with-increment: it
//! returns the pre-increment value (an absent row counts as zero) and
//! persists the post-increment value, so no two allocations under one
//! namespace ever observe the same counter value.

use vstd::prelude::*;

use crate::emote::BTTVEmote;
use crate::emote::Emote;
use crate::emote::EmoteAddData;
use crate::emote::EmoteIdCounter;
use crate::emote::EmoteProvider;
use crate::emote::LegacyEmote;
use crate::errors::ApiError;
use crate::errors::DatabaseError;
use crate::ids::IdClass;
use crate::ids::classify;
use crate::ids::classify_spec;
use crate::ids::id_spec;
use crate::ids::make_id;

verus! {

/// No two counter rows share a namespace.
pub open spec fn unique_namespaces(rows: Seq<EmoteIdCounter>) -> bool {
    forall|i: int, j: int|
        0 <= i < j < rows.len() ==> (#[trigger] rows[i])._id@ != (#[trigger] rows[j])._id@
}

/// Some counter row is keyed by `ns`.
pub open spec fn has_row(rows: Seq<EmoteIdCounter>, ns: Seq<char>) -> bool {
    exists|i: int| 0 <= i < rows.len() && (#[trigger] rows[i])._id@ == ns
}

/// The counter value stored under `ns`; an absent row counts as zero.
pub open spec fn counter_value(rows: Seq<EmoteIdCounter>, ns: Seq<char>) -> u64 {
    if has_row(rows, ns) {
        let i = choose|i: int| 0 <= i < rows.len() && (#[trigger] rows[i])._id@ == ns;
        rows[i].counter
    } else {
        0
    }
}

/// With unique namespaces, the stored value is the value of whichever row
/// carries the namespace.
pub proof fn lemma_counter_value_at(rows: Seq<EmoteIdCounter>, ns: Seq<char>, i: int)
    requires
        unique_namespaces(rows),
        0 <= i < rows.len(),
        rows[i]._id@ == ns,
    ensures
        has_row(rows, ns),
        counter_value(rows, ns) == rows[i].counter,
{
    assert(has_row(rows, ns));
    let i2 = choose|i2: int| 0 <= i2 < rows.len() && (#[trigger] rows[i2])._id@ == ns;
    if i2 != i {
        assert(rows[i2]._id@ != rows[i]._id@);
    }
}

/// Replacing a row with one of the same namespace leaves every other
/// namespace's value unchanged.
pub proof fn lemma_counter_value_update(
    rows: Seq<EmoteIdCounter>,
    j: int,
    row: EmoteIdCounter,
    ns2: Seq<char>,
)
    requires
        unique_namespaces(rows),
        0 <= j < rows.len(),
        row._id@ == rows[j]._id@,
        ns2 != rows[j]._id@,
    ensures
        unique_namespaces(rows.update(j, row)),
        counter_value(rows.update(j, row), ns2) == counter_value(rows, ns2),
{
    let rows2 = rows.update(j, row);
    if has_row(rows, ns2) {
        let i = choose|i: int| 0 <= i < rows.len() && (#[trigger] rows[i])._id@ == ns2;
        assert(i != j);
        lemma_counter_value_at(rows, ns2, i);
        lemma_counter_value_at(rows2, ns2, i);
    } else {
        assert(!has_row(rows2, ns2)) by {
            if has_row(rows2, ns2) {
                let i = choose|i: int| 0 <= i < rows2.len() && (#[trigger] rows2[i])._id@ == ns2;
                assert(i != j);
                assert(rows[i]._id@ == ns2);
            }
        }
    }
}

/// Appending a row for a fresh namespace leaves every other namespace's
/// value unchanged.
pub proof fn lemma_counter_value_push(rows: Seq<EmoteIdCounter>, row: EmoteIdCounter, ns2: Seq<char>)
    requires
        unique_namespaces(rows),
        !has_row(rows, row._id@),
        ns2 != row._id@,
    ensures
        unique_namespaces(rows.push(row)),
        counter_value(rows.push(row), ns2) == counter_value(rows, ns2),
{
    let rows2 = rows.push(row);
    assert forall|i: int, j: int|
        0 <= i < j < rows2.len() implies (#[trigger] rows2[i])._id@ != (#[trigger] rows2[j])._id@ by {
        if j == rows.len() {
            assert(rows2[i] == rows[i]);
            assert(!(rows[i]._id@ == row._id@));
        }
    }
    if has_row(rows, ns2) {
        let i = choose|i: int| 0 <= i < rows.len() && (#[trigger] rows[i])._id@ == ns2;
        lemma_counter_value_at(rows, ns2, i);
        lemma_counter_value_at(rows2, ns2, i);
    } else {
        assert(!has_row(rows2, ns2)) by {
            if has_row(rows2, ns2) {
                let i = choose|i: int| 0 <= i < rows2.len() && (#[trigger] rows2[i])._id@ == ns2;
                assert(i != rows.len());
                assert(rows[i]._id@ == ns2);
            }
        }
    }
}

/// `e` was migrated from legacy identifier `lid`.
pub open spec fn emote_has_legacy(e: Emote, lid: Seq<char>) -> bool {
    e.legacy_id matches Some(l) && l@ == lid
}

/// `e` originates from provider `p` under the provider-native id `pid`.
pub open spec fn emote_has_provider(e: Emote, p: EmoteProvider, pid: Seq<char>) -> bool {
    e.provider.provider == p && e.provider.id@ == pid
}

/// The in-memory store: emote records plus one counter row per namespace.
pub struct Registry {
    emotes: Vec<Emote>,
    counters: Vec<EmoteIdCounter>,
}

/// One step of resolving an inbound identifier string: either an answer,
/// or the instruction to fetch the legacy record from the external
/// service and hand it to `resolve_fetched`.
#[derive(Debug)]
pub enum EmoteLookup {
    Done(Result<Emote, ApiError>),
    NeedsLegacyFetch,
}

impl Registry {
    /// The stored emote records, in insertion order.
    pub closed spec fn emotes_seq(&self) -> Seq<Emote> {
        self.emotes@
    }

    /// The stored counter rows.
    pub closed spec fn counter_rows(&self) -> Seq<EmoteIdCounter> {
        self.counters@
    }

    /// The store invariant: counter rows are keyed uniquely.
    pub open spec fn wf(&self) -> bool {
        unique_namespaces(self.counter_rows())
    }

    /// The counter value persisted for `ns`; zero when no row exists yet.
    pub open spec fn counter_of(&self, ns: Seq<char>) -> u64 {
        counter_value(self.counter_rows(), ns)
    }

    /// Some stored record has primary key `id`.
    pub open spec fn has_emote_id(&self, id: Seq<char>) -> bool {
        exists|i: int|
            0 <= i < self.emotes_seq().len() && (#[trigger] self.emotes_seq()[i])._id@ == id
    }

    /// Some stored record was migrated from legacy identifier `lid`.
    pub open spec fn has_legacy(&self, lid: Seq<char>) -> bool {
        exists|i: int|
            0 <= i < self.emotes_seq().len() && emote_has_legacy(
                #[trigger] self.emotes_seq()[i],
                lid,
            )
    }

    /// Some stored record has this provider data.
    pub open spec fn has_provider(&self, p: EmoteProvider, pid: Seq<char>) -> bool {
        exists|i: int|
            0 <= i < self.emotes_seq().len() && emote_has_provider(
                #[trigger] self.emotes_seq()[i],
                p,
                pid,
            )
    }

    /// Resolving `id` against this store needs an external fetch: the
    /// string is legacy-format and no migrated record exists yet.
    pub open spec fn needs_fetch(&self, id: Seq<char>) -> bool {
        classify_spec(id) == IdClass::Legacy && !self.has_legacy(id)
    }

    /// An empty store.
    pub fn new() -> (r: Registry)
        ensures
            r.wf(),
            r.emotes_seq() == Seq::<Emote>::empty(),
            r.counter_rows() == Seq::<EmoteIdCounter>::empty(),
    {
        Registry { emotes: Vec::new(), counters: Vec::new() }
    }

    /// How many emote records the store holds.
    pub fn emote_count(&self) -> (r: usize)
        ensures
            r == self.emotes_seq().len(),
    {
        self.emotes.len()
    }

    fn find_counter_index(&self, namespace: &str) -> (r: Option<usize>)
        ensures
            match r {
                Some(j) => j < self.counter_rows().len() && self.counter_rows()[j as int]._id@
                    == namespace@,
                None => !has_row(self.counter_rows(), namespace@),
            },
    {
        let key = namespace.to_owned();
        let n = self.counters.len();
        let mut j: usize = 0;
        while j < n
            invariant
                n == self.counter_rows().len(),
                j <= n,
                key@ == namespace@,
                forall|m: int| 0 <= m < j ==> (#[trigger] self.counter_rows()[m])._id@ != namespace@,
            decreases n - j,
        {
            if self.counters[j]._id == key {
                return Some(j);
            }
            j = j + 1;
        }
        None
    }

    /// The atomic upsert-with-increment on the counter row for
    /// `namespace`: returns the pre-increment value (zero when the row did
    /// not exist) and persists the post-increment value. Two calls under
    /// one namespace therefore never observe the same value.
    pub fn increment_and_get(&mut self, namespace: &str) -> (r: u64)
        requires
            old(self).wf(),
            old(self).counter_of(namespace@) < u64::MAX,
        ensures
            final(self).wf(),
            r == old(self).counter_of(namespace@),
            final(self).counter_of(namespace@) == r + 1,
            forall|ns2: Seq<char>|
                ns2 != namespace@ ==> #[trigger] final(self).counter_of(ns2) == old(self).counter_of(
                    ns2,
                ),
            final(self).emotes_seq() == old(self).emotes_seq(),
    {
        match self.find_counter_index(namespace) {
            Some(j) => {
                proof {
                    lemma_counter_value_at(self.counter_rows(), namespace@, j as int);
                }
                let prev = self.counters[j].counter;
                let key = self.counters[j]._id.clone();
                self.counters[j] = EmoteIdCounter { _id: key, counter: prev + 1 };
                proof {
                    let rows = old(self).counter_rows();
                    let rows2 = self.counter_rows();
                    assert(rows2 == rows.update(
                        j as int,
                        EmoteIdCounter { _id: rows[j as int]._id, counter: (prev + 1) as u64 },
                    ));
                    assert forall|i1: int, i2: int|
                        0 <= i1 < i2 < rows2.len() implies (#[trigger] rows2[i1])._id@ != (
                    #[trigger] rows2[i2])._id@ by {
                        assert(rows[i1]._id@ != rows[i2]._id@);
                    }
                    lemma_counter_value_at(rows2, namespace@, j as int);
                    assert forall|ns2: Seq<char>| ns2 != namespace@ implies #[trigger] counter_value(
                        rows2,
                        ns2,
                    ) == counter_value(rows, ns2) by {
                        lemma_counter_value_update(
                            rows,
                            j as int,
                            rows2[j as int],
                            ns2,
                        );
                    }
                }
                prev
            },
            None => {
                let row = EmoteIdCounter { _id: namespace.to_owned(), counter: 1 };
                self.counters.push(row);
                proof {
                    let rows = old(self).counter_rows();
                    let rows2 = self.counter_rows();
                    assert(rows2 == rows.push(rows2[rows.len() as int]));
                    assert forall|i1: int, i2: int|
                        0 <= i1 < i2 < rows2.len() implies (#[trigger] rows2[i1])._id@ != (
                    #[trigger] rows2[i2])._id@ by {
                        if i2 == rows.len() {
                            assert(rows2[i1] == rows[i1]);
                        } else {
                            assert(rows[i1]._id@ != rows[i2]._id@);
                        }
                    }
                    lemma_counter_value_at(rows2, namespace@, rows.len() as int);
                    assert forall|ns2: Seq<char>| ns2 != namespace@ implies #[trigger] counter_value(
                        rows2,
                        ns2,
                    ) == counter_value(rows, ns2) by {
                        lemma_counter_value_push(rows, rows2[rows.len() as int], ns2);
                    }
                }
                0
            },
        }
    }

    /// Allocates the next current-format identifier under `namespace`:
    /// the namespace, the separator, and the encoding of the counter value
    /// this call atomically observed. From a fresh namespace, successive
    /// calls yield the encodings of 0, 1, 2, ... with no gap and no
    /// repetition.
    pub fn allocate(&mut self, namespace: &str) -> (r: String)
        requires
            old(self).wf(),
            old(self).counter_of(namespace@) < u64::MAX,
        ensures
            final(self).wf(),
            r@ == id_spec(namespace@, old(self).counter_of(namespace@) as nat),
            final(self).counter_of(namespace@) == old(self).counter_of(namespace@) + 1,
            forall|ns2: Seq<char>|
                ns2 != namespace@ ==> #[trigger] final(self).counter_of(ns2) == old(self).counter_of(
                    ns2,
                ),
            final(self).emotes_seq() == old(self).emotes_seq(),
    {
        let prev = self.increment_and_get(namespace);
        make_id(namespace, prev)
    }

    /// Point lookup by primary key.
    pub fn find_by_id(&self, id: &str) -> (r: Option<&Emote>)
        ensures
            r is Some <==> self.has_emote_id(id@),
            match r {
                Some(e) => e._id@ == id@ && exists|i: int|
                    0 <= i < self.emotes_seq().len() && *e == #[trigger] self.emotes_seq()[i],
                None => true,
            },
    {
        let key = id.to_owned();
        let n = self.emotes.len();
        let mut i: usize = 0;
        while i < n
            invariant
                n == self.emotes_seq().len(),
                i <= n,
                key@ == id@,
                forall|m: int| 0 <= m < i ==> (#[trigger] self.emotes_seq()[m])._id@ != id@,
            decreases n - i,
        {
            if self.emotes[i]._id == key {
                return Some(&self.emotes[i]);
            }
            i = i + 1;
        }
        None
    }

    /// Point lookup by the secondary key `legacy_id`: the memo of an
    /// earlier migration.
    pub fn find_by_legacy_id(&self, legacy_id: &str) -> (r: Option<&Emote>)
        ensures
            r is Some <==> self.has_legacy(legacy_id@),
            match r {
                Some(e) => emote_has_legacy(*e, legacy_id@) && exists|i: int|
                    0 <= i < self.emotes_seq().len() && *e == #[trigger] self.emotes_seq()[i],
                None => true,
            },
    {
        let key = legacy_id.to_owned();
        let n = self.emotes.len();
        let mut i: usize = 0;
        while i < n
            invariant
                n == self.emotes_seq().len(),
                i <= n,
                key@ == legacy_id@,
                forall|m: int|
                    0 <= m < i ==> !emote_has_legacy(#[trigger] self.emotes_seq()[m], legacy_id@),
            decreases n - i,
        {
            match &self.emotes[i].legacy_id {
                Some(l) => {
                    if *l == key {
                        return Some(&self.emotes[i]);
                    }
                },
                None => {},
            }
            i = i + 1;
        }
        None
    }

    /// Point lookup by provider tag and provider-native id.
    pub fn find_by_provider(&self, provider: EmoteProvider, provider_id: &str) -> (r: Option<&Emote>)
        ensures
            r is Some <==> self.has_provider(provider, provider_id@),
            match r {
                Some(e) => emote_has_provider(*e, provider, provider_id@) && exists|i: int|
                    0 <= i < self.emotes_seq().len() && *e == #[trigger] self.emotes_seq()[i],
                None => true,
            },
    {
        let key = provider_id.to_owned();
        let n = self.emotes.len();
        let mut i: usize = 0;
        while i < n
            invariant
                n == self.emotes_seq().len(),
                i <= n,
                key@ == provider_id@,
                forall|m: int|
                    0 <= m < i ==> !emote_has_provider(
                        #[trigger] self.emotes_seq()[m],
                        provider,
                        provider_id@,
                    ),
            decreases n - i,
        {
            if self.emotes[i].provider.provider == provider && self.emotes[i].provider.id == key {
                return Some(&self.emotes[i]);
            }
            i = i + 1;
        }
        None
    }

    /// Appends a record. Records are written exactly once, at creation.
    pub fn insert_emote(&mut self, emote: &Emote) -> (r: Result<(), DatabaseError>)
        ensures
            r is Ok,
            final(self).emotes_seq() == old(self).emotes_seq().push(*emote),
            final(self).counter_rows() == old(self).counter_rows(),
    {
        self.emotes.push(emote.duplicate());
        Ok(())
    }

    /// Migrates a fetched legacy record: allocates a current-format
    /// identifier under the legacy record's display name, derives the
    /// record, and persists it with `legacy_id` set to the input, so that
    /// the next resolution of the same legacy identifier is served from
    /// the store. The returned record is derived before it is persisted
    /// and does not depend on the persist: a caller whose durable store
    /// rejects the final insert can still answer with it and report the
    /// failure on the side, losing only the memoization.
    pub fn migrate_legacy(&mut self, legacy_id: &str, legacy: &LegacyEmote) -> (r: Emote)
        requires
            old(self).wf(),
            old(self).counter_of(legacy.name@) < u64::MAX,
        ensures
            final(self).wf(),
            r._id@ == id_spec(legacy.name@, old(self).counter_of(legacy.name@) as nat),
            r.provider.provider == EmoteProvider::BTTV,
            r.provider.id@ == legacy.bttvId@,
            r.image_type@ == legacy.imageType@,
            r.animated == (legacy.imageType@ == "gif"@),
            r.banned == legacy.banned,
            emote_has_legacy(r, legacy_id@),
            final(self).emotes_seq() == old(self).emotes_seq().push(r),
            final(self).has_legacy(legacy_id@),
            final(self).counter_of(legacy.name@) == old(self).counter_of(legacy.name@) + 1,
    {
        let new_id = self.allocate(legacy.name.as_str());
        let emote = Emote::from_legacy_record(legacy, new_id, legacy_id);
        let _ = self.insert_emote(&emote);
        proof {
            let n = self.emotes_seq().len() - 1;
            assert(emote_has_legacy(self.emotes_seq()[n], legacy_id@));
        }
        emote
    }

    /// One step of the resolution protocol for an inbound identifier
    /// string. An invalid string is rejected before any lookup; a
    /// current-format string is answered by primary-key lookup; a
    /// legacy-format string is answered from the migration memo when one
    /// exists, and otherwise the caller is asked to fetch the legacy
    /// record. A fetch is demanded if and only if the string is
    /// legacy-format and not yet migrated.
    pub fn get_emote_step(&self, id: &str) -> (r: EmoteLookup)
        ensures
            r is NeedsLegacyFetch <==> self.needs_fetch(id@),
            classify_spec(id@) == IdClass::Invalid ==> {
                &&& r matches EmoteLookup::Done(res)
                &&& res matches Err(e) && e is InvalidId
            },
            classify_spec(id@) == IdClass::Current && !self.has_emote_id(id@) ==> {
                &&& r matches EmoteLookup::Done(res)
                &&& res matches Err(e) && e is NotFound
            },
            classify_spec(id@) == IdClass::Current && self.has_emote_id(id@) ==> {
                &&& r matches EmoteLookup::Done(res)
                &&& res matches Ok(e) && e._id@ == id@ && exists|i: int|
                    0 <= i < self.emotes_seq().len() && e == #[trigger] self.emotes_seq()[i]
            },
            classify_spec(id@) == IdClass::Legacy && self.has_legacy(id@) ==> {
                &&& r matches EmoteLookup::Done(res)
                &&& res matches Ok(e) && emote_has_legacy(e, id@) && exists|i: int|
                    0 <= i < self.emotes_seq().len() && e == #[trigger] self.emotes_seq()[i]
            },
    {
        match classify(id) {
            IdClass::Invalid => EmoteLookup::Done(Err(ApiError::InvalidId)),
            IdClass::Current => match self.find_by_id(id) {
                Some(e) => EmoteLookup::Done(Ok(e.duplicate())),
                None => EmoteLookup::Done(Err(ApiError::NotFound)),
            },
            IdClass::Legacy => match self.find_by_legacy_id(id) {
                Some(e) => EmoteLookup::Done(Ok(e.duplicate())),
                None => EmoteLookup::NeedsLegacyFetch,
            },
        }
    }

    /// Finishes a resolution that needed an external fetch. A failed
    /// fetch surfaces as `LegacyApiError` carrying the fetch's account of
    /// the failure, and the store is untouched: no partial record is
    /// created. A successful fetch is migrated, and the freshly derived
    /// record is returned.
    pub fn resolve_fetched(&mut self, legacy_id: &str, fetched: Result<LegacyEmote, String>) -> (r:
        Result<Emote, ApiError>)
        requires
            old(self).wf(),
            fetched matches Ok(l) ==> old(self).counter_of(l.name@) < u64::MAX,
        ensures
            final(self).wf(),
            fetched matches Err(m) ==> {
                &&& r matches Err(e)
                &&& e matches ApiError::LegacyApiError(d) && d@ == m@
                &&& final(self).emotes_seq() == old(self).emotes_seq()
                &&& final(self).counter_rows() == old(self).counter_rows()
            },
            fetched matches Ok(l) ==> {
                &&& r matches Ok(e)
                &&& e._id@ == id_spec(l.name@, old(self).counter_of(l.name@) as nat)
                &&& e.provider.provider == EmoteProvider::BTTV
                &&& e.provider.id@ == l.bttvId@
                &&& e.image_type@ == l.imageType@
                &&& e.animated == (l.imageType@ == "gif"@)
                &&& e.banned == l.banned
                &&& emote_has_legacy(e, legacy_id@)
                &&& final(self).emotes_seq() == old(self).emotes_seq().push(e)
                &&& final(self).has_legacy(legacy_id@)
            },
    {
        match fetched {
            Err(m) => Err(ApiError::LegacyApiError(m)),
            Ok(l) => Ok(self.migrate_legacy(legacy_id, &l)),
        }
    }
}

impl Emote {
    /// Allocates the next identifier under `name`, per the counter store's
    /// pre-increment semantics. The in-memory store cannot fail, so the
    /// result is always `Ok`; the error arm mirrors the store's failure
    /// mode, which a caller must still be prepared for.
    pub fn generate_id(reg: &mut Registry, name: &str) -> (r: Result<String, DatabaseError>)
        requires
            old(reg).wf(),
            old(reg).counter_of(name@) < u64::MAX,
        ensures
            final(reg).wf(),
            r matches Ok(id) && id@ == id_spec(name@, old(reg).counter_of(name@) as nat),
            final(reg).counter_of(name@) == old(reg).counter_of(name@) + 1,
            forall|ns2: Seq<char>|
                ns2 != name@ ==> #[trigger] final(reg).counter_of(ns2) == old(reg).counter_of(ns2),
            final(reg).emotes_seq() == old(reg).emotes_seq(),
    {
        Ok(reg.allocate(name))
    }

    /// Looks up the record a provider-add request refers to, or derives
    /// and persists a new one from the provider's answer. The existing
    /// record wins: no second record is created for the same provider
    /// data.
    pub fn add_from_provider(reg: &mut Registry, data: &EmoteAddData, fetched: &BTTVEmote) -> (r:
        Emote)
        requires
            old(reg).wf(),
            old(reg).counter_of(fetched.code@) < u64::MAX,
        ensures
            final(reg).wf(),
            old(reg).has_provider(data.provider, data.id@) ==> emote_has_provider(
                r,
                data.provider,
                data.id@,
            ) && final(reg).emotes_seq() == old(reg).emotes_seq(),
            !old(reg).has_provider(data.provider, data.id@) ==> {
                &&& r._id@ == id_spec(fetched.code@, old(reg).counter_of(fetched.code@) as nat)
                &&& emote_has_provider(r, data.provider, data.id@)
                &&& r.image_type@ == fetched.imageType@
                &&& r.animated == fetched.animated
                &&& r.banned == false
                &&& r.legacy_id is None
                &&& final(reg).emotes_seq() == old(reg).emotes_seq().push(r)
            },
    {
        match reg.find_by_provider(data.provider, data.id.as_str()) {
            Some(e) => e.duplicate(),
            None => {
                let new_id = reg.allocate(fetched.code.as_str());
                let emote = Emote::from_provider(data, fetched, new_id);
                let result = reg.insert_emote(&emote);
                emote
            },
        }
    }
}

/// Law: identifiers allocated under one namespace from distinct counter
/// values are pairwise distinct; from a fresh counter, the first `n`
/// allocations are the identifiers for 0 through n-1, with no duplicate
/// and no gap.
pub proof fn lemma_fresh_allocations_distinct(ns: Seq<char>, n: nat)
    ensures
        forall|i: nat, j: nat| i < j < n ==> id_spec(ns, i) != id_spec(ns, j),
{
    assert forall|i: nat, j: nat| i < j < n implies id_spec(ns, i) != id_spec(ns, j) by {
        crate::ids::lemma_id_spec_injective(ns, i, j);
    }
}

/// Law: once a record for a legacy identifier stands in the store, a
/// later resolution of that identifier is served from the store and asks
/// for no further external fetch.
pub proof fn lemma_migration_memoized(reg: Registry, lid: Seq<char>)
    requires
        reg.has_legacy(lid),
    ensures
        !reg.needs_fetch(lid),
{
}

} // verus!
